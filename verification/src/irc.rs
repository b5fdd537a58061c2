//! The hub: the registry of the channels by name, the way into the lobby for
//! new connections, and the one place where channels are made.

use vstd::prelude::*;
use crate::channel::{Channel, ChannelInfoView, ChannelView};
use crate::directory::{distinct, includes, lemma_position, position, Directory, EntryView};
use crate::protocol::{Command, CommandView, Event, EventView, Settings, SettingsView};

verus! {

/// Where the hub wants an item sent.
#[derive(Debug)]
pub enum Routing<S, C, M> {
    /// To the channel that is registered as `channel`.
    Forward { channel: String, event: Event<S, C> },
    /// To the channel `opened`, which was registered in this step under its
    /// name and has no actor yet: start one on it, then send.
    Open { opened: Channel<C, M>, event: Event<S, C> },
    /// Nowhere: the item is not for the hub.
    Ignore,
}

/// `Routing` as values.
pub enum RoutingView<S, C, M> {
    Forward { channel: Seq<char>, event: EventView<S, C> },
    Open { opened: ChannelView<C, M>, event: EventView<S, C> },
    Ignore,
}

impl<S, C, M> DeepView for Routing<S, C, M> {
    type V = RoutingView<S, C, M>;

    open spec fn deep_view(&self) -> RoutingView<S, C, M> {
        match self {
            Routing::Forward { channel, event } => RoutingView::Forward {
                channel: channel@,
                event: event.deep_view(),
            },
            Routing::Open { opened, event } => RoutingView::Open {
                opened: opened@,
                event: event.deep_view(),
            },
            Routing::Ignore => RoutingView::Ignore,
        }
    }
}

/// The hub as values.
pub struct HubView<M> {
    pub channels: Seq<EntryView<M>>,
    pub sender: M,
    pub settings: SettingsView,
}

impl<M> HubView<M> {
    /// No channel name is registered twice, and the lobby is registered.
    pub open spec fn wf(self) -> bool {
        &&& distinct(self.channels)
        &&& includes(self.channels, self.settings.hall)
    }

    /// The hub after a request to join `channel`, where `spare` is the handle
    /// at hand for a new channel: a name that is not registered is now, with
    /// that handle.
    pub open spec fn join(self, channel: Seq<char>, spare: M) -> Self {
        if includes(self.channels, channel) {
            self
        } else {
            HubView {
                channels: self.channels.push(EntryView { name: channel, sender: spare }),
                ..self
            }
        }
    }

    /// The channel that the hub makes for the first client who asks for
    /// `name`: empty, with that client as admin, the capacity and the topic
    /// of the settings, `sender` as its own mailbox and `irc_sender` as the
    /// hub's.
    pub open spec fn fresh<C>(self, name: Seq<char>, admin: Seq<char>, sender: M, irc_sender: M)
        -> ChannelView<C, M> {
        ChannelView {
            info: ChannelInfoView {
                name,
                topic: self.settings.default_topic,
                admin,
                capacity: self.settings.max_clients,
            },
            sender,
            irc_sender,
            clients: Seq::empty(),
            settings: self.settings,
        }
    }

    /// Where the hub sends the client `nick` that asks for `channel`: on to
    /// the channel of that name, or, where none is registered, to the one it
    /// makes, whose handles `own` and `hub` are copies of the spare handle
    /// and of the hub's.
    pub open spec fn join_out<S, C>(
        self,
        nick: Seq<char>,
        channel: Seq<char>,
        sender: C,
        own: M,
        hub: M,
    ) -> RoutingView<S, C, M> {
        if includes(self.channels, channel) {
            RoutingView::Forward { channel, event: EventView::Client { nick, sender } }
        } else {
            RoutingView::Open {
                opened: self.fresh(channel, nick, own, hub),
                event: EventView::Client { nick, sender },
            }
        }
    }

    /// The hub after one item of its mailbox.
    pub open spec fn react<S, C>(self, event: EventView<S, C>, spare: M) -> Self {
        match event {
            EventView::Command(CommandView::Join { nick, channel, sender }) => self.join(
                channel,
                spare,
            ),
            _ => self,
        }
    }

    /// Where the hub sends one item of its mailbox: a stream to the lobby, a
    /// client that asks for a channel to that channel, and nothing else
    /// anywhere.
    pub open spec fn react_out<S, C>(self, event: EventView<S, C>, own: M, hub: M) -> RoutingView<
        S,
        C,
        M,
    > {
        match event {
            EventView::Connection(stream) => RoutingView::Forward {
                channel: self.settings.hall,
                event: EventView::Connection(stream),
            },
            EventView::Command(CommandView::Join { nick, channel, sender }) => self.join_out(
                nick,
                channel,
                sender,
                own,
                hub,
            ),
            _ => RoutingView::Ignore,
        }
    }
}

/// The hub stays well formed when it registers a channel, and keeps what it
/// had registered.
pub proof fn lemma_hub_join<M>(hub: HubView<M>, channel: Seq<char>, spare: M)
    requires
        hub.wf(),
    ensures
        hub.join(channel, spare).wf(),
        includes(hub.join(channel, spare).channels, channel),
        hub.join(channel, spare).channels.len() >= hub.channels.len(),
        forall|i: int|
            0 <= i < hub.channels.len() ==> #[trigger] hub.join(channel, spare).channels[i]
                == hub.channels[i],
        includes(hub.channels, channel) ==> hub.join(channel, spare) == hub,
        !includes(hub.channels, channel) ==> hub.join(channel, spare).channels
            == hub.channels.push(EntryView { name: channel, sender: spare }),
{
    let after = hub.join(channel, spare).channels;
    if !includes(hub.channels, channel) {
        assert(after[after.len() - 1].name == channel);
        assert forall|i: int, j: int| 0 <= i < j < after.len() implies (#[trigger] after[i]).name
            != (#[trigger] after[j]).name by {
            assert(after[i] == hub.channels[i]);
            if j < hub.channels.len() {
                assert(after[j] == hub.channels[j]);
            }
        }
        let k = choose|k: int|
            0 <= k < hub.channels.len() && (#[trigger] hub.channels[k]).name == hub.settings.hall;
        assert(after[k].name == hub.settings.hall);
    }
}

/// Every step keeps the hub well formed, and what the hub sends on goes to a
/// channel that is registered then.
pub proof fn forward_finds_its_channel<S, C, M>(
    hub: HubView<M>,
    event: EventView<S, C>,
    spare: M,
    own: M,
    copy: M,
)
    requires
        hub.wf(),
    ensures
        hub.react(event, spare).wf(),
        hub.react_out(event, own, copy) matches RoutingView::Forward { channel, .. } ==> includes(
            hub.react(event, spare).channels,
            channel,
        ),
{
    match event {
        EventView::Command(CommandView::Join { nick, channel, sender }) => {
            lemma_hub_join(hub, channel, spare);
        },
        _ => {},
    }
}

/// The state of the hub actor.
#[derive(Debug)]
pub struct IRC<M> {
    channels: Directory<M>,
    sender: M,
    settings: Settings,
}

impl<M> View for IRC<M> {
    type V = HubView<M>;

    closed spec fn view(&self) -> HubView<M> {
        HubView {
            channels: self.channels@,
            sender: self.sender,
            settings: self.settings.deep_view(),
        }
    }
}

impl<M: Clone> IRC<M> {
    /// What every hub keeps.
    pub open spec fn wf(&self) -> bool {
        self@.wf()
    }

    /// The hub and its lobby. `sender` is the handle of the hub's mailbox,
    /// `hall` that of the lobby's. The lobby is registered under the name
    /// that the settings give it, and is returned without an actor.
    pub fn start<C>(sender: M, hall: M, settings: Settings) -> (r: (IRC<M>, Channel<C, M>))
        ensures
            r.0.wf(),
            r.0@ == (HubView {
                channels: seq![EntryView { name: settings.hall@, sender: hall }],
                sender,
                settings: settings.deep_view(),
            }),
            r.1.wf(),
            r.1@.info == (ChannelInfoView {
                name: settings.hall@,
                topic: settings.default_topic@,
                admin: settings.hall_admin@,
                capacity: settings.max_clients,
            }),
            r.1@.clients == Seq::<EntryView<C>>::empty(),
            r.1@.settings == settings.deep_view(),
            cloned(hall, r.1@.sender),
            cloned(sender, r.1@.irc_sender),
    {
        let lobby = Channel::new(
            settings.hall.clone(),
            settings.hall_admin.clone(),
            settings.max_clients,
            sender.clone(),
            hall.clone(),
            settings.clone(),
        );
        let mut channels: Directory<M> = Directory::new();
        channels.insert(settings.hall.clone(), hall);
        let hub = IRC { channels, sender, settings };
        proof {
            let entry = EntryView { name: settings.hall@, sender: hall };
            assert(hub@.channels =~= seq![entry]);
            assert(hub@.channels[0].name == settings.hall@);
        }
        (hub, lobby)
    }

    /// What an acceptor puts into the hub's mailbox for a stream that it
    /// accepted.
    pub fn connection<S, C>(stream: S) -> (r: Event<S, C>)
        ensures
            r.deep_view() == EventView::<S, C>::Connection(stream),
    {
        Event::Connection(stream)
    }

    /// The handle of the hub's own mailbox.
    pub fn sender(&self) -> (r: &M)
        ensures
            *r == self@.sender,
    {
        &self.sender
    }

    /// The mailbox of the channel that is registered as `channel`.
    pub fn mailbox(&self, channel: &String) -> (r: Option<&M>)
        ensures
            r is Some <==> includes(self@.channels, channel@),
            r matches Some(sender) ==> *sender == self@.channels[position(
                self@.channels,
                channel@,
            )].sender,
    {
        self.channels.get(channel)
    }

    /// The names of the registered channels, the lobby first.
    pub fn names(&self) -> (r: Vec<String>)
        ensures
            r.deep_view() == crate::directory::names_of(self@.channels),
    {
        self.channels.names()
    }

    /// The client `nick`, whose mailbox is `sender`, asks for the channel
    /// `channel_name`. Where such a channel is registered the client is sent
    /// on to it. Where none is, one is made with `nick` as its admin and
    /// `spare` as its mailbox, registered, and handed out together with the
    /// client for it.
    pub fn join<S, C>(&mut self, nick: String, channel_name: String, sender: C, spare: M) -> (r:
        Routing<S, C, M>)
        requires
            old(self).wf(),
        ensures
            final(self).wf(),
            final(self)@ == old(self)@.join(channel_name@, spare),
            r matches Routing::Open { opened, event } ==> opened.wf(),
            exists|own: M, hub: M| #[trigger]
                cloned(spare, own) && #[trigger] cloned(old(self)@.sender, hub) && r.deep_view()
                    == old(self)@.join_out::<S, C>(nick@, channel_name@, sender, own, hub),
    {
        if self.channels.contains(&channel_name) {
            assert(cloned(spare, spare) && cloned(self@.sender, self@.sender));
            Routing::Forward { channel: channel_name, event: Event::Client { nick, sender } }
        } else {
            let own = spare.clone();
            let hub = self.sender.clone();
            assert(cloned(spare, own) && cloned(self@.sender, hub));
            let opened = Channel::new(
                channel_name.clone(),
                nick.clone(),
                self.settings.max_clients,
                hub,
                own,
                self.settings.clone(),
            );
            proof {
                lemma_position(self@.channels, self@.settings.hall);
            }
            self.channels.insert(channel_name, spare);
            proof {
                let k = position(old(self)@.channels, old(self)@.settings.hall);
                assert(self@.channels[k].name == self@.settings.hall);
            }
            Routing::Open { opened, event: Event::Client { nick, sender } }
        }
    }

    /// Carries out a request that a channel handed over.
    pub fn run_command<S, C>(&mut self, command: Command<C>, spare: M) -> (r: Routing<S, C, M>)
        requires
            old(self).wf(),
        ensures
            final(self).wf(),
            final(self)@ == old(self)@.react(
                EventView::<S, C>::Command(command.deep_view()),
                spare,
            ),
            r matches Routing::Open { opened, event } ==> opened.wf(),
            exists|own: M, hub: M| #[trigger]
                cloned(spare, own) && #[trigger] cloned(old(self)@.sender, hub) && r.deep_view()
                    == old(self)@.react_out(
                    EventView::<S, C>::Command(command.deep_view()),
                    own,
                    hub,
                ),
    {
        match command {
            Command::Join { nick, channel, sender } => self.join(nick, channel, sender, spare),
        }
    }

    /// One step of the actor. A stream goes on to the lobby, a request is
    /// carried out, and anything else is not for the hub.
    pub fn broker<S, C>(&mut self, event: Event<S, C>, spare: M) -> (r: Routing<S, C, M>)
        requires
            old(self).wf(),
        ensures
            final(self).wf(),
            final(self)@ == old(self)@.react(event.deep_view(), spare),
            r matches Routing::Open { opened, event } ==> opened.wf(),
            exists|own: M, hub: M| #[trigger]
                cloned(spare, own) && #[trigger] cloned(old(self)@.sender, hub) && r.deep_view()
                    == old(self)@.react_out(event.deep_view(), own, hub),
    {
        assert(cloned(spare, spare) && cloned(self@.sender, self@.sender));
        match event {
            Event::Connection(stream) => Routing::Forward {
                channel: self.settings.hall.clone(),
                event: Event::Connection(stream),
            },
            Event::Command(command) => self.run_command(command, spare),
            Event::Client { nick: _, sender: _ } => Routing::Ignore,
            Event::Message { nick: _, msg: _ } => Routing::Ignore,
            Event::Depart { nick: _ } => Routing::Ignore,
        }
    }
}

} // verus!
