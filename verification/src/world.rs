//! The actors together: the hub, the channels and what lies in their
//! mailboxes, as one state that moves by one actor's step at a time. The
//! steps are those of the actors; what is proved here holds of every order
//! in which a runtime may let them run.

use vstd::prelude::*;
use crate::channel::{
    request_of, snapshot, valid_channel_name, ChannelInfoView, ChannelView, OutboundView, Request,
};
use crate::clock::Timestamp;
use crate::directory::{
    includes, lemma_position, lemma_without, names_of, position, without, EntryView,
};
use crate::irc::{lemma_hub_join, HubView, RoutingView};
use crate::membership::{lemma_attach, lemma_react_wf};
use crate::protocol::{ActionView, ClientResultView, CommandView, EventView, SettingsView};
use crate::text::argument;

verus! {

/// A channel and the clients at its door: those that were sent to it and
/// that it has not let in or refused yet, first come first.
pub struct Room<C, M> {
    pub channel: ChannelView<C, M>,
    pub waiting: Seq<EntryView<C>>,
}

/// The hub, the requests that channels handed to it and that it has not
/// carried out yet, and the channels in the order of the hub's registry.
pub struct World<C, M> {
    pub hub: HubView<M>,
    pub requests: Seq<CommandView<C>>,
    pub rooms: Seq<Room<C, M>>,
}

/// One actor's step.
pub enum Step<C, M> {
    /// A connection has its nickname and asks the lobby to let it in.
    Connect { nick: Seq<char>, sender: C },
    /// A channel takes the first client at its door.
    Attach { room: int },
    /// A channel takes a line of `nick`.
    Line { room: int, nick: Seq<char>, text: Seq<char>, time: Timestamp },
    /// A channel learns that the connection of `nick` ended.
    Depart { room: int, nick: Seq<char> },
    /// The hub takes the first request. For a channel that it has to make,
    /// `spare` is the mailbox, and `own` and `hub` are the copies of `spare`
    /// and of its own handle that the channel keeps.
    Route { spare: M, own: M, hub: M },
}

/// The requests among what a channel sends.
pub open spec fn handed_over<C, M>(out: Seq<OutboundView<C, M>>) -> Seq<CommandView<C>>
    decreases out.len(),
{
    if out.len() == 0 {
        Seq::empty()
    } else {
        let rest = handed_over(out.drop_last());
        match out.last() {
            OutboundView::Hub(command) => rest.push(command),
            _ => rest,
        }
    }
}

/// How many of `clients` are among `who`.
pub open spec fn count<C>(clients: Seq<EntryView<C>>, who: spec_fn(EntryView<C>) -> bool) -> nat
    decreases clients.len(),
{
    if clients.len() == 0 {
        0
    } else {
        count(clients.drop_last(), who) + if who(clients.last()) {
            1nat
        } else {
            0nat
        }
    }
}

/// The clients called `nick`.
pub open spec fn called<C>(nick: Seq<char>) -> spec_fn(EntryView<C>) -> bool {
    |client: EntryView<C>| client.name == nick
}

/// The clients whose mailbox is `sender`.
pub open spec fn reached_at<C>(sender: C) -> spec_fn(EntryView<C>) -> bool {
    |client: EntryView<C>| client.sender == sender
}

/// The client that a request carries.
pub open spec fn carried<C>(request: CommandView<C>) -> EntryView<C> {
    match request {
        CommandView::Join { nick, sender, .. } => EntryView { name: nick, sender },
    }
}

/// The clients that the requests carry.
pub open spec fn requesters<C>(requests: Seq<CommandView<C>>) -> Seq<EntryView<C>> {
    Seq::new(requests.len(), |i: int| carried(requests[i]))
}

/// In how many places of a room a client among `who` stands: at the door
/// and among the members.
pub open spec fn held_in<C, M>(room: Room<C, M>, who: spec_fn(EntryView<C>) -> bool) -> nat {
    count(room.waiting, who) + count(room.channel.clients, who)
}

/// In how many places of the rooms a client among `who` stands.
pub open spec fn held_by<C, M>(rooms: Seq<Room<C, M>>, who: spec_fn(EntryView<C>) -> bool) -> nat
    decreases rooms.len(),
{
    if rooms.len() == 0 {
        0
    } else {
        held_by(rooms.drop_last(), who) + held_in(rooms.last(), who)
    }
}

impl<C, M> World<C, M> {
    /// The hub and each channel are well formed, and the channels are those
    /// of the registry, under their names.
    pub open spec fn wf(self) -> bool {
        &&& self.hub.wf()
        &&& self.rooms.len() == self.hub.channels.len()
        &&& forall|i: int|
            0 <= i < self.rooms.len() ==> (#[trigger] self.rooms[i]).channel.wf()
                && self.rooms[i].channel.info.name == self.hub.channels[i].name
    }

    /// The place of the lobby.
    pub open spec fn lobby(self) -> int {
        position(self.hub.channels, self.hub.settings.hall)
    }

    /// In how many places a client among `who` stands: as a member of a
    /// channel, at the door of one, or in a request on its way to the hub.
    pub open spec fn held(self, who: spec_fn(EntryView<C>) -> bool) -> nat {
        count(requesters(self.requests), who) + held_by(self.rooms, who)
    }

    /// No nickname stands in two places.
    pub open spec fn calm(self) -> bool {
        forall|nick: Seq<char>| #[trigger] self.held(called(nick)) <= 1
    }

    /// No mailbox stands in two places.
    pub open spec fn apart(self) -> bool {
        forall|sender: C| #[trigger] self.held(reached_at(sender)) <= 1
    }

    /// No nickname is a member of two channels.
    pub open spec fn unique(self) -> bool {
        forall|nick: Seq<char>, i: int, j: int|
            0 <= i < j < self.rooms.len() ==> !(#[trigger] includes(
                self.rooms[i].channel.clients,
                nick,
            ) && #[trigger] includes(self.rooms[j].channel.clients, nick))
    }

    /// No mailbox is that of two members, be it of one channel or of two.
    pub open spec fn single(self) -> bool {
        forall|i: int, a: int, j: int, b: int|
            0 <= i <= j < self.rooms.len() && 0 <= a < self.rooms[i].channel.clients.len() && 0
                <= b < self.rooms[j].channel.clients.len() && (i != j || a != b) ==> (
            #[trigger] self.rooms[i].channel.clients[a]).sender != (
            #[trigger] self.rooms[j].channel.clients[b]).sender
    }

    /// The world with `entry` at the door of the channel in place `room`.
    pub open spec fn knock(self, room: int, entry: EntryView<C>) -> Self {
        World {
            rooms: self.rooms.update(
                room,
                Room { waiting: self.rooms[room].waiting.push(entry), ..self.rooms[room] },
            ),
            ..self
        }
    }

    /// The world after one step. A step that names no channel, or finds its
    /// mailbox empty, changes nothing.
    pub open spec fn next(self, step: Step<C, M>) -> Self {
        match step {
            Step::Connect { nick, sender } => self.knock(
                self.lobby(),
                EntryView { name: nick, sender },
            ),
            Step::Attach { room } => {
                if 0 <= room < self.rooms.len() && self.rooms[room].waiting.len() > 0 {
                    let first = self.rooms[room].waiting[0];
                    World {
                        rooms: self.rooms.update(
                            room,
                            Room {
                                channel: self.rooms[room].channel.react(
                                    EventView::<(), C>::Client {
                                        nick: first.name,
                                        sender: first.sender,
                                    },
                                ),
                                waiting: self.rooms[room].waiting.drop_first(),
                            },
                        ),
                        ..self
                    }
                } else {
                    self
                }
            },
            Step::Line { room, nick, text, time } => {
                if 0 <= room < self.rooms.len() {
                    let channel = self.rooms[room].channel;
                    World {
                        requests: self.requests + handed_over(
                            channel.message_out(nick, text, time),
                        ),
                        rooms: self.rooms.update(
                            room,
                            Room {
                                channel: channel.react(
                                    EventView::<(), C>::Message { nick, msg: text },
                                ),
                                ..self.rooms[room]
                            },
                        ),
                        ..self
                    }
                } else {
                    self
                }
            },
            Step::Depart { room, nick } => {
                if 0 <= room < self.rooms.len() {
                    World {
                        rooms: self.rooms.update(
                            room,
                            Room {
                                channel: self.rooms[room].channel.react(
                                    EventView::<(), C>::Depart { nick },
                                ),
                                ..self.rooms[room]
                            },
                        ),
                        ..self
                    }
                } else {
                    self
                }
            },
            Step::Route { spare, own, hub } => {
                if self.requests.len() > 0 {
                    let event = EventView::<(), C>::Command(self.requests[0]);
                    let after = World {
                        hub: self.hub.react(event, spare),
                        requests: self.requests.drop_first(),
                        ..self
                    };
                    match self.hub.react_out(event, own, hub) {
                        RoutingView::Forward {
                            channel,
                            event: EventView::Client { nick, sender },
                        } => after.knock(
                            position(self.hub.channels, channel),
                            EntryView { name: nick, sender },
                        ),
                        RoutingView::Open { opened, event: EventView::Client { nick, sender } } => {
                            World {
                                rooms: self.rooms.push(
                                    Room {
                                        channel: opened,
                                        waiting: seq![EntryView { name: nick, sender }],
                                    },
                                ),
                                ..after
                            }
                        },
                        _ => after,
                    }
                } else {
                    self
                }
            },
        }
    }

    /// Whether `step` brings a nickname that stands nowhere, if it brings
    /// one.
    pub open spec fn admits(self, step: Step<C, M>) -> bool {
        step matches Step::Connect { nick, .. } ==> self.held(called(nick)) == 0
    }

    /// Whether `step` brings a mailbox that stands nowhere, if it brings
    /// one.
    pub open spec fn welcomes(self, step: Step<C, M>) -> bool {
        step matches Step::Connect { sender, .. } ==> self.held(reached_at(sender)) == 0
    }

    /// The world after `steps`, one after the other.
    pub open spec fn run(self, steps: Seq<Step<C, M>>) -> Self
        decreases steps.len(),
    {
        if steps.len() == 0 {
            self
        } else {
            self.run(steps.drop_last()).next(steps.last())
        }
    }

    /// Whether every connection among `steps` brings a nickname that stands
    /// nowhere when it comes.
    pub open spec fn admissible(self, steps: Seq<Step<C, M>>) -> bool
        decreases steps.len(),
    {
        steps.len() == 0 || (self.admissible(steps.drop_last()) && self.run(
            steps.drop_last(),
        ).admits(steps.last()))
    }

    /// Whether every connection among `steps` brings a mailbox that stands
    /// nowhere when it comes.
    pub open spec fn welcome(self, steps: Seq<Step<C, M>>) -> bool
        decreases steps.len(),
    {
        steps.len() == 0 || (self.welcome(steps.drop_last()) && self.run(
            steps.drop_last(),
        ).welcomes(steps.last()))
    }
}

/// The world at the start: the hub with the lobby registered, the lobby
/// empty, and nothing in any mailbox.
pub open spec fn start<C, M>(settings: SettingsView, sender: M, hall: M, own: M, hub: M) -> World<
    C,
    M,
> {
    World {
        hub: HubView {
            channels: seq![EntryView { name: settings.hall, sender: hall }],
            sender,
            settings,
        },
        requests: Seq::empty(),
        rooms: seq![
            Room {
                channel: ChannelView {
                    info: ChannelInfoView {
                        name: settings.hall,
                        topic: settings.default_topic,
                        admin: settings.hall_admin,
                        capacity: settings.max_clients,
                    },
                    sender: own,
                    irc_sender: hub,
                    clients: Seq::empty(),
                    settings,
                },
                waiting: Seq::empty(),
            },
        ],
    }
}

/// One more client counts if it is among `who`.
proof fn lemma_count_push<C>(
    clients: Seq<EntryView<C>>,
    client: EntryView<C>,
    who: spec_fn(EntryView<C>) -> bool,
)
    ensures
        count(clients.push(client), who) == count(clients, who) + if who(client) {
            1nat
        } else {
            0nat
        },
{
    assert(clients.push(client).drop_last() =~= clients);
}

/// Without the first client the count is less by one if that was among
/// `who`.
proof fn lemma_count_drop_first<C>(
    clients: Seq<EntryView<C>>,
    who: spec_fn(EntryView<C>) -> bool,
)
    requires
        clients.len() > 0,
    ensures
        count(clients.drop_first(), who) + (if who(clients[0]) {
            1nat
        } else {
            0nat
        }) == count(clients, who),
{
    lemma_count_remove(clients, 0, who);
    assert(clients.remove(0) =~= clients.drop_first());
}

/// Without the client in place `i` the count is less by one if that was
/// among `who`.
proof fn lemma_count_remove<C>(
    clients: Seq<EntryView<C>>,
    i: int,
    who: spec_fn(EntryView<C>) -> bool,
)
    requires
        0 <= i < clients.len(),
    ensures
        count(clients.remove(i), who) + (if who(clients[i]) {
            1nat
        } else {
            0nat
        }) == count(clients, who),
    decreases clients.len(),
{
    if i == clients.len() - 1 {
        assert(clients.remove(i) =~= clients.drop_last());
    } else {
        lemma_count_remove(clients.drop_last(), i, who);
        assert(clients.remove(i).drop_last() =~= clients.drop_last().remove(i));
        assert(clients.remove(i).last() == clients.last());
    }
}

/// Without the client called `name` the count is less by one if there was
/// such a client and it was among `who`.
proof fn lemma_count_without<C>(
    clients: Seq<EntryView<C>>,
    name: Seq<char>,
    who: spec_fn(EntryView<C>) -> bool,
)
    ensures
        count(without(clients, name), who) + (if includes(clients, name) && who(
            clients[position(clients, name)],
        ) {
            1nat
        } else {
            0nat
        }) == count(clients, who),
{
    lemma_position(clients, name);
    if includes(clients, name) {
        lemma_count_remove(clients, position(clients, name), who);
    }
}

/// A client among `who` counts.
proof fn lemma_count_some<C>(
    clients: Seq<EntryView<C>>,
    i: int,
    who: spec_fn(EntryView<C>) -> bool,
)
    requires
        0 <= i < clients.len(),
        who(clients[i]),
    ensures
        count(clients, who) >= 1,
{
    lemma_count_remove(clients, i, who);
}

/// Two clients among `who` count twice.
proof fn lemma_count_two<C>(
    clients: Seq<EntryView<C>>,
    i: int,
    j: int,
    who: spec_fn(EntryView<C>) -> bool,
)
    requires
        0 <= i < j < clients.len(),
        who(clients[i]),
        who(clients[j]),
    ensures
        count(clients, who) >= 2,
{
    lemma_count_remove(clients, j, who);
    assert(clients.remove(j)[i] == clients[i]);
    lemma_count_some(clients.remove(j), i, who);
}

/// Another room in place `i` changes the sum by the difference of the two.
proof fn lemma_held_by_update<C, M>(
    rooms: Seq<Room<C, M>>,
    i: int,
    room: Room<C, M>,
    who: spec_fn(EntryView<C>) -> bool,
)
    requires
        0 <= i < rooms.len(),
    ensures
        held_by(rooms.update(i, room), who) + held_in(rooms[i], who) == held_by(rooms, who)
            + held_in(room, who),
    decreases rooms.len(),
{
    let now = rooms.update(i, room);
    if i == rooms.len() - 1 {
        assert(now.drop_last() =~= rooms.drop_last());
    } else {
        lemma_held_by_update(rooms.drop_last(), i, room, who);
        assert(now.drop_last() =~= rooms.drop_last().update(i, room));
    }
}

/// One more room adds what it holds.
proof fn lemma_held_by_push<C, M>(
    rooms: Seq<Room<C, M>>,
    room: Room<C, M>,
    who: spec_fn(EntryView<C>) -> bool,
)
    ensures
        held_by(rooms.push(room), who) == held_by(rooms, who) + held_in(room, who),
{
    assert(rooms.push(room).drop_last() =~= rooms);
}

/// The rooms hold at least what one of them holds.
proof fn lemma_held_by_one<C, M>(
    rooms: Seq<Room<C, M>>,
    i: int,
    who: spec_fn(EntryView<C>) -> bool,
)
    requires
        0 <= i < rooms.len(),
    ensures
        held_in(rooms[i], who) <= held_by(rooms, who),
{
    let bare = Room { channel: rooms[i].channel.with_clients(Seq::empty()), waiting: Seq::empty() };
    lemma_held_by_update(rooms, i, bare, who);
}

/// The rooms hold at least what two of them hold.
proof fn lemma_held_by_two<C, M>(
    rooms: Seq<Room<C, M>>,
    i: int,
    j: int,
    who: spec_fn(EntryView<C>) -> bool,
)
    requires
        0 <= i < j < rooms.len(),
    ensures
        held_in(rooms[i], who) + held_in(rooms[j], who) <= held_by(rooms, who),
{
    let bare = Room { channel: rooms[i].channel.with_clients(Seq::empty()), waiting: Seq::empty() };
    let mid = rooms.update(i, bare);
    lemma_held_by_update(rooms, i, bare, who);
    lemma_held_by_update(mid, j, bare, who);
    assert(mid[j] == rooms[j]);
}

/// Talk holds no request for the hub.
proof fn lemma_talk_hands_nothing_over<C, M>(
    to: Seq<EntryView<C>>,
    nick: Seq<char>,
    text: Seq<char>,
    time: Timestamp,
)
    ensures
        handed_over(crate::channel::chat_to::<C, M>(to, nick, text, time)) == Seq::<
            CommandView<C>,
        >::empty(),
    decreases to.len(),
{
    let out = crate::channel::chat_to::<C, M>(to, nick, text, time);
    if to.len() > 0 {
        lemma_talk_hands_nothing_over::<C, M>(to.drop_last(), nick, text, time);
        assert(out.drop_last() =~= crate::channel::chat_to::<C, M>(
            to.drop_last(),
            nick,
            text,
            time,
        ));
    }
}

/// A channel hands a request to the hub for one kind of line only: a
/// member's well-formed request to join. The request carries the member's
/// nickname and mailbox.
pub proof fn lemma_handed_over<C, M>(
    channel: ChannelView<C, M>,
    nick: Seq<char>,
    text: Seq<char>,
    time: Timestamp,
)
    ensures
        handed_over(channel.message_out(nick, text, time)) == if request_of(
            channel.settings,
            text,
        ) == Request::Join && includes(channel.clients, nick) && valid_channel_name(
            argument(text),
        ) {
            seq![
                CommandView::Join {
                    nick,
                    channel: argument(text),
                    sender: channel.clients[position(channel.clients, nick)].sender,
                },
            ]
        } else {
            Seq::empty()
        },
{
    let out = channel.message_out(nick, text, time);
    if request_of(channel.settings, text) == Request::Chat {
        lemma_talk_hands_nothing_over::<C, M>(
            crate::directory::others(channel.clients, nick),
            nick,
            text,
            time,
        );
    } else if out.len() == 1 {
        assert(out.drop_last() =~= Seq::empty());
        assert(handed_over(out.drop_last()) =~= Seq::empty());
        assert(handed_over(out) =~= if out[0] is Hub {
            seq![out[0]->Hub_0]
        } else {
            Seq::empty()
        });
    }
}

impl<C, M> World<C, M> {
    /// Every step keeps the world well formed.
    pub proof fn lemma_next_wf(self, step: Step<C, M>)
        requires
            self.wf(),
        ensures
            self.next(step).wf(),
    {
        let after = self.next(step);
        lemma_position(self.hub.channels, self.hub.settings.hall);
        match step {
            Step::Connect { nick, sender } => {
                assert forall|i: int| 0 <= i < after.rooms.len() implies (
                #[trigger] after.rooms[i]).channel.wf() && after.rooms[i].channel.info.name
                    == after.hub.channels[i].name by {
                    assert(self.rooms[i].channel.wf());
                }
            },
            Step::Attach { room } => {
                if 0 <= room < self.rooms.len() && self.rooms[room].waiting.len() > 0 {
                    let first = self.rooms[room].waiting[0];
                    assert(self.rooms[room].channel.wf());
                    lemma_react_wf(
                        self.rooms[room].channel,
                        EventView::<(), C>::Client { nick: first.name, sender: first.sender },
                    );
                    assert forall|i: int| 0 <= i < after.rooms.len() implies (
                    #[trigger] after.rooms[i]).channel.wf() && after.rooms[i].channel.info.name
                        == after.hub.channels[i].name by {
                        assert(self.rooms[i].channel.wf());
                    }
                }
            },
            Step::Line { room, nick, text, time } => {
                if 0 <= room < self.rooms.len() {
                    assert(self.rooms[room].channel.wf());
                    lemma_react_wf(
                        self.rooms[room].channel,
                        EventView::<(), C>::Message { nick, msg: text },
                    );
                    assert forall|i: int| 0 <= i < after.rooms.len() implies (
                    #[trigger] after.rooms[i]).channel.wf() && after.rooms[i].channel.info.name
                        == after.hub.channels[i].name by {
                        assert(self.rooms[i].channel.wf());
                    }
                }
            },
            Step::Depart { room, nick } => {
                if 0 <= room < self.rooms.len() {
                    assert(self.rooms[room].channel.wf());
                    lemma_react_wf(
                        self.rooms[room].channel,
                        EventView::<(), C>::Depart { nick },
                    );
                    assert forall|i: int| 0 <= i < after.rooms.len() implies (
                    #[trigger] after.rooms[i]).channel.wf() && after.rooms[i].channel.info.name
                        == after.hub.channels[i].name by {
                        assert(self.rooms[i].channel.wf());
                    }
                }
            },
            Step::Route { spare, own, hub } => {
                if self.requests.len() > 0 {
                    match self.requests[0] {
                        CommandView::Join { nick, channel, sender } => {
                            lemma_hub_join(self.hub, channel, spare);
                            lemma_position(self.hub.channels, channel);
                            assert forall|i: int| 0 <= i < after.rooms.len() implies (
                            #[trigger] after.rooms[i]).channel.wf()
                                && after.rooms[i].channel.info.name
                                == after.hub.channels[i].name by {
                                if i < self.rooms.len() {
                                    assert(self.rooms[i].channel.wf());
                                    assert(after.hub.channels[i] == self.hub.channels[i]);
                                }
                            }
                        },
                    }
                }
            },
        }
    }

    /// A step puts no client in a further place, but for a connection,
    /// which puts its client at the lobby's door.
    pub proof fn lemma_next_held(self, step: Step<C, M>, who: spec_fn(EntryView<C>) -> bool)
        requires
            self.wf(),
        ensures
            self.next(step).held(who) <= self.held(who) + if step matches Step::Connect {
                nick,
                sender,
            } && who(EntryView { name: nick, sender }) {
                1nat
            } else {
                0nat
            },
    {
        let after = self.next(step);
        lemma_position(self.hub.channels, self.hub.settings.hall);
        match step {
            Step::Connect { nick, sender } => {
                let at = self.lobby();
                let entry = EntryView { name: nick, sender };
                lemma_held_by_update(self.rooms, at, after.rooms[at], who);
                lemma_count_push(self.rooms[at].waiting, entry, who);
            },
            Step::Attach { room } => {
                if 0 <= room < self.rooms.len() && self.rooms[room].waiting.len() > 0 {
                    let before = self.rooms[room];
                    let first = before.waiting[0];
                    lemma_held_by_update(self.rooms, room, after.rooms[room], who);
                    lemma_count_drop_first(before.waiting, who);
                    lemma_count_push(before.channel.clients, first, who);
                }
            },
            Step::Line { room, nick: from, text, time } => {
                if 0 <= room < self.rooms.len() {
                    let before = self.rooms[room];
                    lemma_held_by_update(self.rooms, room, after.rooms[room], who);
                    lemma_handed_over(before.channel, from, text, time);
                    lemma_count_without(before.channel.clients, from, who);
                    lemma_count_without(before.channel.clients, argument(text), who);
                    lemma_position(before.channel.clients, from);
                    let handed = handed_over(before.channel.message_out(from, text, time));
                    if handed.len() == 0 {
                        assert(self.requests + handed =~= self.requests);
                    } else {
                        let member = before.channel.clients[position(before.channel.clients, from)];
                        assert(carried(handed[0]) == member);
                        assert(self.requests + handed =~= self.requests.push(handed[0]));
                        assert(requesters(self.requests.push(handed[0])) =~= requesters(
                            self.requests,
                        ).push(member));
                        lemma_count_push(requesters(self.requests), member, who);
                    }
                }
            },
            Step::Depart { room, nick: gone } => {
                if 0 <= room < self.rooms.len() {
                    let before = self.rooms[room];
                    lemma_held_by_update(self.rooms, room, after.rooms[room], who);
                    lemma_count_without(before.channel.clients, gone, who);
                }
            },
            Step::Route { spare, own, hub } => {
                if self.requests.len() > 0 {
                    match self.requests[0] {
                        CommandView::Join { nick: from, channel, sender } => {
                            let entry = EntryView { name: from, sender };
                            lemma_position(self.hub.channels, channel);
                            lemma_count_drop_first(requesters(self.requests), who);
                            assert(requesters(self.requests.drop_first()) =~= requesters(
                                self.requests,
                            ).drop_first());
                            if includes(self.hub.channels, channel) {
                                let at = position(self.hub.channels, channel);
                                lemma_held_by_update(self.rooms, at, after.rooms[at], who);
                                lemma_count_push(self.rooms[at].waiting, entry, who);
                            } else {
                                let made = after.rooms[self.rooms.len() as int];
                                lemma_held_by_push(self.rooms, made, who);
                                assert(after.rooms =~= self.rooms.push(made));
                                assert(made.waiting =~= Seq::<EntryView<C>>::empty().push(entry));
                                lemma_count_push(Seq::<EntryView<C>>::empty(), entry, who);
                            }
                        },
                    }
                }
            },
        }
    }

    /// In a calm world no nickname is a member of two channels.
    pub proof fn lemma_calm_unique(self)
        requires
            self.calm(),
        ensures
            self.unique(),
    {
        assert forall|nick: Seq<char>, i: int, j: int| 0 <= i < j < self.rooms.len() implies !(
        #[trigger] includes(self.rooms[i].channel.clients, nick) && #[trigger] includes(
            self.rooms[j].channel.clients,
            nick,
        )) by {
            let one = self.rooms[i].channel.clients;
            let other = self.rooms[j].channel.clients;
            if includes(one, nick) && includes(other, nick) {
                lemma_position(one, nick);
                lemma_position(other, nick);
                lemma_count_some(one, position(one, nick), called(nick));
                lemma_count_some(other, position(other, nick), called(nick));
                lemma_held_by_two(self.rooms, i, j, called(nick));
                assert(self.held(called(nick)) <= 1);
            }
        }
    }

    /// In a world whose mailboxes are apart no mailbox is that of two
    /// members.
    pub proof fn lemma_apart_single(self)
        requires
            self.apart(),
        ensures
            self.single(),
    {
        assert forall|i: int, a: int, j: int, b: int|
            0 <= i <= j < self.rooms.len() && 0 <= a < self.rooms[i].channel.clients.len() && 0
                <= b < self.rooms[j].channel.clients.len() && (i != j || a != b) implies (
        #[trigger] self.rooms[i].channel.clients[a]).sender != (
        #[trigger] self.rooms[j].channel.clients[b]).sender by {
            let one = self.rooms[i].channel.clients;
            let other = self.rooms[j].channel.clients;
            let who = reached_at(one[a].sender);
            if one[a].sender == other[b].sender {
                assert(self.held(who) <= 1);
                if i == j {
                    if a < b {
                        lemma_count_two(one, a, b, who);
                    } else {
                        lemma_count_two(one, b, a, who);
                    }
                    lemma_held_by_one(self.rooms, i, who);
                } else {
                    lemma_count_some(one, a, who);
                    lemma_count_some(other, b, who);
                    lemma_held_by_two(self.rooms, i, j, who);
                }
            }
        }
    }

    /// Steps that bring no nickname twice keep the world well formed and
    /// calm.
    pub proof fn lemma_run(self, steps: Seq<Step<C, M>>)
        requires
            self.wf(),
            self.calm(),
            self.admissible(steps),
        ensures
            self.run(steps).wf(),
            self.run(steps).calm(),
        decreases steps.len(),
    {
        if steps.len() > 0 {
            let before = self.run(steps.drop_last());
            self.lemma_run(steps.drop_last());
            before.lemma_next_wf(steps.last());
            assert forall|nick: Seq<char>| #[trigger]
                before.next(steps.last()).held(called(nick)) <= 1 by {
                before.lemma_next_held(steps.last(), called(nick));
                assert(before.held(called(nick)) <= 1);
            }
        }
    }

    /// Every run keeps the world well formed.
    pub proof fn lemma_run_wf(self, steps: Seq<Step<C, M>>)
        requires
            self.wf(),
        ensures
            self.run(steps).wf(),
        decreases steps.len(),
    {
        if steps.len() > 0 {
            self.lemma_run_wf(steps.drop_last());
            self.run(steps.drop_last()).lemma_next_wf(steps.last());
        }
    }

    /// Steps that bring no mailbox twice keep the mailboxes apart.
    pub proof fn lemma_run_apart(self, steps: Seq<Step<C, M>>)
        requires
            self.wf(),
            self.apart(),
            self.welcome(steps),
        ensures
            self.run(steps).apart(),
        decreases steps.len(),
    {
        if steps.len() > 0 {
            let before = self.run(steps.drop_last());
            self.lemma_run_apart(steps.drop_last());
            self.lemma_run_wf(steps.drop_last());
            assert forall|sender: C| #[trigger]
                before.next(steps.last()).held(reached_at(sender)) <= 1 by {
                before.lemma_next_held(steps.last(), reached_at(sender));
                assert(before.held(reached_at(sender)) <= 1);
            }
        }
    }
}

impl<C, M> World<C, M> {
    /// Whether `step` moves a client without letting it go: the hub sends
    /// a client on, a channel takes a request to join, or a channel lets in
    /// the client at its door.
    pub open spec fn moves(self, step: Step<C, M>) -> bool {
        match step {
            Step::Route { .. } => true,
            Step::Line { room, text, .. } => 0 <= room < self.rooms.len() ==> request_of(
                self.rooms[room].channel.settings,
                text,
            ) == Request::Join,
            Step::Attach { room } => 0 <= room < self.rooms.len() && self.rooms[room].waiting.len()
                > 0 ==> !self.rooms[room].channel.full() && !includes(
                self.rooms[room].channel.clients,
                self.rooms[room].waiting[0].name,
            ),
            _ => false,
        }
    }

    /// A move keeps every client: whoever stood somewhere stands somewhere
    /// afterwards, as often as before. No join and no routing loses a
    /// client or makes two of one.
    pub proof fn moves_keep_every_client(
        self,
        step: Step<C, M>,
        who: spec_fn(EntryView<C>) -> bool,
    )
        requires
            self.wf(),
            self.moves(step),
        ensures
            self.next(step).held(who) == self.held(who),
    {
        let after = self.next(step);
        match step {
            Step::Attach { room } => {
                if 0 <= room < self.rooms.len() && self.rooms[room].waiting.len() > 0 {
                    let before = self.rooms[room];
                    lemma_held_by_update(self.rooms, room, after.rooms[room], who);
                    lemma_count_drop_first(before.waiting, who);
                    lemma_count_push(before.channel.clients, before.waiting[0], who);
                }
            },
            Step::Line { room, nick: from, text, time } => {
                if 0 <= room < self.rooms.len() {
                    let before = self.rooms[room];
                    lemma_held_by_update(self.rooms, room, after.rooms[room], who);
                    lemma_handed_over(before.channel, from, text, time);
                    lemma_count_without(before.channel.clients, from, who);
                    lemma_position(before.channel.clients, from);
                    let handed = handed_over(before.channel.message_out(from, text, time));
                    if handed.len() == 0 {
                        assert(self.requests + handed =~= self.requests);
                    } else {
                        let member = before.channel.clients[position(before.channel.clients, from)];
                        assert(carried(handed[0]) == member);
                        assert(self.requests + handed =~= self.requests.push(handed[0]));
                        assert(requesters(self.requests.push(handed[0])) =~= requesters(
                            self.requests,
                        ).push(member));
                        lemma_count_push(requesters(self.requests), member, who);
                    }
                }
            },
            Step::Route { spare, own, hub } => {
                if self.requests.len() > 0 {
                    match self.requests[0] {
                        CommandView::Join { nick: from, channel, sender } => {
                            let entry = EntryView { name: from, sender };
                            lemma_position(self.hub.channels, channel);
                            lemma_count_drop_first(requesters(self.requests), who);
                            assert(requesters(self.requests.drop_first()) =~= requesters(
                                self.requests,
                            ).drop_first());
                            if includes(self.hub.channels, channel) {
                                let at = position(self.hub.channels, channel);
                                lemma_held_by_update(self.rooms, at, after.rooms[at], who);
                                lemma_count_push(self.rooms[at].waiting, entry, who);
                            } else {
                                let made = after.rooms[self.rooms.len() as int];
                                lemma_held_by_push(self.rooms, made, who);
                                assert(after.rooms =~= self.rooms.push(made));
                                assert(made.waiting =~= Seq::<EntryView<C>>::empty().push(entry));
                                lemma_count_push(Seq::<EntryView<C>>::empty(), entry, who);
                            }
                        },
                    }
                }
            },
            _ => {},
        }
    }
}

/// Uniqueness of nicknames. From the start on, whatever steps the actors
/// take and in whatever order, as long as no connection brings a nickname
/// that another client holds at that moment: no nickname is a member of two
/// channels.
pub proof fn nicknames_are_unique<C, M>(
    settings: SettingsView,
    sender: M,
    hall: M,
    own: M,
    hub: M,
    steps: Seq<Step<C, M>>,
)
    requires
        start::<C, M>(settings, sender, hall, own, hub).admissible(steps),
    ensures
        start::<C, M>(settings, sender, hall, own, hub).run(steps).wf(),
        start::<C, M>(settings, sender, hall, own, hub).run(steps).unique(),
{
    let first = start::<C, M>(settings, sender, hall, own, hub);
    lemma_start::<C, M>(settings, sender, hall, own, hub);
    first.lemma_run(steps);
    first.run(steps).lemma_calm_unique();
}

/// A client is in one place. From the start on, whatever steps the actors
/// take and in whatever order, whatever the nicknames, as long as every
/// connection brings a mailbox of its own: no mailbox is that of two
/// members, so no client is a member twice, of one channel or of two.
pub proof fn clients_are_members_once<C, M>(
    settings: SettingsView,
    sender: M,
    hall: M,
    own: M,
    hub: M,
    steps: Seq<Step<C, M>>,
)
    requires
        start::<C, M>(settings, sender, hall, own, hub).welcome(steps),
    ensures
        start::<C, M>(settings, sender, hall, own, hub).run(steps).wf(),
        start::<C, M>(settings, sender, hall, own, hub).run(steps).single(),
{
    let first = start::<C, M>(settings, sender, hall, own, hub);
    lemma_start::<C, M>(settings, sender, hall, own, hub);
    first.lemma_run_wf(steps);
    first.lemma_run_apart(steps);
    first.run(steps).lemma_apart_single();
}

/// The world at the start is well formed and holds no client.
pub proof fn lemma_start<C, M>(settings: SettingsView, sender: M, hall: M, own: M, hub: M)
    ensures
        start::<C, M>(settings, sender, hall, own, hub).wf(),
        start::<C, M>(settings, sender, hall, own, hub).calm(),
        start::<C, M>(settings, sender, hall, own, hub).apart(),
        forall|who: spec_fn(EntryView<C>) -> bool|
            #[trigger] start::<C, M>(settings, sender, hall, own, hub).held(who) == 0,
{
    let first = start::<C, M>(settings, sender, hall, own, hub);
    assert(first.hub.channels[0].name == settings.hall);
    assert forall|who: spec_fn(EntryView<C>) -> bool| #[trigger] first.held(who) == 0 by {
        assert(first.rooms.drop_last() =~= Seq::empty());
        assert(held_by(first.rooms.drop_last(), who) == 0);
        assert(held_in(first.rooms.last(), who) == 0);
        assert(requesters(first.requests) =~= Seq::empty());
    }
}

/// A channel is made once. Where the hub finds two requests for a channel
/// that is not registered, from clients of different nicknames, it makes
/// the channel for the first and sends the second on to it: the registry
/// grows by that one name, one channel is added, the first client is its
/// admin, and once the channel has let both in, its members are those two.
pub proof fn channel_is_made_once<C, M>(
    world: World<C, M>,
    name: Seq<char>,
    first: EntryView<C>,
    second: EntryView<C>,
    spare: M,
    own: M,
    hub: M,
    other_spare: M,
    other_own: M,
    other_hub: M,
)
    requires
        world.wf(),
        !includes(world.hub.channels, name),
        world.requests.len() >= 2,
        world.requests[0] == (CommandView::Join {
            nick: first.name,
            channel: name,
            sender: first.sender,
        }),
        world.requests[1] == (CommandView::Join {
            nick: second.name,
            channel: name,
            sender: second.sender,
        }),
        first.name != second.name,
        world.hub.settings.max_clients >= 2,
    ensures
        ({
            let made = world.rooms.len() as int;
            let routed = world.next(Step::Route { spare, own, hub }).next(
                Step::Route { spare: other_spare, own: other_own, hub: other_hub },
            );
            let done = routed.next(Step::Attach { room: made }).next(Step::Attach { room: made });
            &&& routed.hub.channels == world.hub.channels.push(
                EntryView { name, sender: spare },
            )
            &&& routed.rooms.len() == world.rooms.len() + 1
            &&& routed.rooms[made].channel == world.hub.fresh::<C>(name, first.name, own, hub)
            &&& routed.rooms[made].waiting == seq![first, second]
            &&& done.hub == routed.hub
            &&& done.rooms.len() == routed.rooms.len()
            &&& done.rooms[made].channel.info == routed.rooms[made].channel.info
            &&& done.rooms[made].channel.clients == seq![first, second]
        }),
{
    let made = world.rooms.len() as int;
    let one = world.next(Step::Route { spare, own, hub });
    lemma_hub_join(world.hub, name, spare);
    let entry = EntryView { name, sender: spare };
    assert(one.hub.channels == world.hub.channels.push(entry));
    assert(one.rooms[made].waiting == seq![first]);
    assert(one.requests[0] == world.requests[1]);
    world.lemma_next_wf(Step::Route { spare, own, hub });
    lemma_position(one.hub.channels, name);
    assert(one.hub.channels[made].name == name);
    assert(position(one.hub.channels, name) == made) by {
        if position(one.hub.channels, name) < made {
            let k = position(one.hub.channels, name);
            assert(world.hub.channels[k].name == name);
        }
    }
    let routed = one.next(Step::Route { spare: other_spare, own: other_own, hub: other_hub });
    assert(routed.rooms[made].waiting =~= seq![first, second]);
    let half = routed.next(Step::Attach { room: made });
    let opened = world.hub.fresh::<C>(name, first.name, own, hub);
    assert(!includes(opened.clients, first.name));
    assert(half.rooms[made].channel.clients =~= seq![first]);
    assert(half.rooms[made].waiting =~= seq![second]);
    let done = half.next(Step::Attach { room: made });
    assert(!includes(half.rooms[made].channel.clients, second.name)) by {
        if includes(half.rooms[made].channel.clients, second.name) {
            let k = choose|k: int|
                0 <= k < half.rooms[made].channel.clients.len() && (
                #[trigger] half.rooms[made].channel.clients[k]).name == second.name;
            assert(k == 0);
        }
    }
    assert(done.rooms[made].channel.clients =~= seq![first, second]);
}

/// A join moves its member. A member of one channel whose line asks for a
/// well-formed channel name leaves its channel with that line. Where the
/// hub has no other request before it and the channel asked for, if there
/// is one, has room and nobody at its door, the client is, after the hub's
/// step and that channel's, a member of the channel of that name under the
/// same nickname and with the same mailbox, and of no other channel; and
/// that channel has told it to send its lines there, and then sent it the
/// snapshot that lists it.
pub proof fn join_moves_a_member<C, M>(
    world: World<C, M>,
    from: int,
    nick: Seq<char>,
    text: Seq<char>,
    time: Timestamp,
    spare: M,
    own: M,
    hub: M,
)
    requires
        world.wf(),
        world.calm(),
        0 <= from < world.rooms.len(),
        includes(world.rooms[from].channel.clients, nick),
        request_of(world.rooms[from].channel.settings, text) == Request::Join,
        valid_channel_name(argument(text)),
        world.requests.len() == 0,
        world.hub.settings.max_clients > 0,
        includes(world.hub.channels, argument(text)) ==> ({
            let to = position(world.hub.channels, argument(text));
            &&& world.rooms[to].waiting.len() == 0
            &&& to != from ==> !world.rooms[to].channel.full()
        }),
    ensures
        ({
            let left = world.next(Step::Line { room: from, nick, text, time });
            let routed = left.next(Step::Route { spare, own, hub });
            let to = position(routed.hub.channels, argument(text));
            let done = routed.next(Step::Attach { room: to });
            let mailbox = world.rooms[from].channel.clients[position(
                world.rooms[from].channel.clients,
                nick,
            )].sender;
            &&& !includes(left.rooms[from].channel.clients, nick)
            &&& 0 <= to < done.rooms.len()
            &&& done.rooms[to].channel.info.name == argument(text)
            &&& includes(done.rooms[to].channel.clients, nick)
            &&& done.rooms[to].channel.clients.last() == (EntryView { name: nick, sender: mailbox })
            &&& forall|other: int|
                0 <= other < done.rooms.len() && other != to ==> !includes(
                    (#[trigger] done.rooms[other]).channel.clients,
                    nick,
                )
            &&& forall|rebind: M| #[trigger]
                routed.rooms[to].channel.attach_out(nick, mailbox, rebind) == seq![
                    OutboundView::<C, M>::Member { nick, action: ActionView::Join(rebind) },
                    OutboundView::<C, M>::Member {
                        nick,
                        action: ActionView::Send(
                            ClientResultView::CommandSuccess {
                                data: snapshot(
                                    done.rooms[to].channel.info,
                                    names_of(done.rooms[to].channel.clients),
                                ),
                            },
                        ),
                    },
                ]
        }),
{
    let name = argument(text);
    let before = world.rooms[from].channel;
    let mailbox = before.clients[position(before.clients, nick)].sender;
    let entry = EntryView { name: nick, sender: mailbox };
    let line = Step::Line { room: from, nick, text, time };
    let route = Step::Route { spare, own, hub };
    let left = world.next(line);
    assert(before.wf());
    lemma_handed_over(before, nick, text, time);
    lemma_without(before.clients, nick);
    assert(left.requests =~= seq![CommandView::Join { nick, channel: name, sender: mailbox }]);
    world.lemma_next_wf(line);
    assert forall|n: Seq<char>| #[trigger] left.held(called(n)) <= 1 by {
        world.lemma_next_held(line, called(n));
        assert(world.held(called(n)) <= 1);
    }
    let routed = left.next(route);
    left.lemma_next_wf(route);
    assert forall|n: Seq<char>| #[trigger] routed.held(called(n)) <= 1 by {
        left.lemma_next_held(route, called(n));
    }
    lemma_hub_join(left.hub, name, spare);
    lemma_position(left.hub.channels, name);
    lemma_position(routed.hub.channels, name);
    let to = position(routed.hub.channels, name);
    assert(0 <= to < routed.rooms.len());
    if includes(left.hub.channels, name) {
        assert(routed.rooms[to].waiting =~= seq![entry]);
        assert(!routed.rooms[to].channel.full());
    } else {
        assert(routed.hub.channels[left.rooms.len() as int].name == name);
        assert(to == left.rooms.len()) by {
            if to < left.rooms.len() {
                assert(left.hub.channels[to].name == name);
            }
        }
        assert(routed.rooms[to].waiting =~= seq![entry]);
    }
    let attach = Step::Attach { room: to };
    let done = routed.next(attach);
    routed.lemma_next_wf(attach);
    assert forall|n: Seq<char>| #[trigger] done.held(called(n)) <= 1 by {
        routed.lemma_next_held(attach, called(n));
    }
    assert(!includes(routed.rooms[to].channel.clients, nick)) by {
        let members = routed.rooms[to].channel.clients;
        if includes(members, nick) {
            lemma_position(members, nick);
            lemma_count_some(members, position(members, nick), called(nick));
            lemma_count_some(routed.rooms[to].waiting, 0, called(nick));
            lemma_held_by_one(routed.rooms, to, called(nick));
            assert(routed.held(called(nick)) <= 1);
        }
    }
    assert(routed.rooms[to].channel.wf());
    lemma_attach(routed.rooms[to].channel, nick, mailbox);
    assert(names_of(done.rooms[to].channel.clients) =~= names_of(
        routed.rooms[to].channel.clients,
    ).push(nick));
    done.lemma_calm_unique();
    assert forall|other: int| 0 <= other < done.rooms.len() && other != to implies !includes(
        (#[trigger] done.rooms[other]).channel.clients,
        nick,
    ) by {
        if other < to {
            assert(!(includes(done.rooms[other].channel.clients, nick) && includes(
                done.rooms[to].channel.clients,
                nick,
            )));
        } else {
            assert(!(includes(done.rooms[to].channel.clients, nick) && includes(
                done.rooms[other].channel.clients,
                nick,
            )));
        }
    }
}

/// Talk stays in its channel: it changes nothing anywhere, and what the
/// channel sends for it goes to members of that channel.
pub proof fn talk_stays_in_its_channel<C, M>(
    world: World<C, M>,
    room: int,
    nick: Seq<char>,
    text: Seq<char>,
    time: Timestamp,
)
    requires
        world.wf(),
        0 <= room < world.rooms.len(),
        request_of(world.rooms[room].channel.settings, text) == Request::Chat,
    ensures
        world.next(Step::Line { room, nick, text, time }) == world,
        ({
            let out = world.rooms[room].channel.message_out(nick, text, time);
            forall|i: int|
                0 <= i < out.len() ==> (#[trigger] out[i] matches OutboundView::Member {
                    nick: to,
                    ..
                } && includes(world.rooms[room].channel.clients, to))
        }),
{
    let channel = world.rooms[room].channel;
    let after = world.next(Step::Line { room, nick, text, time });
    assert(channel.wf());
    crate::membership::members_addressed_are_members(
        channel,
        EventView::<(), C>::Message { nick, msg: text },
        channel.sender,
        time,
    );
    crate::membership::talk_reaches_the_others_once(channel, nick, text, time);
    lemma_handed_over(channel, nick, text, time);
    assert(after.requests =~= world.requests);
    assert(after.rooms =~= world.rooms);
}

} // verus!
