//! The channel actor: the members of one room, and what the room does with
//! each item of its mailbox.

use vstd::prelude::*;
use crate::clock::{now, Timestamp};
use crate::json::{array, json_array, json_string, quote};
use crate::protocol::{
    Action, ActionView, ClientResult, ClientResultView, Command, CommandView, Event, EventView,
    Settings, SettingsView, CHANNEL_FULL_ERROR, CHANNEL_FULL_HINT, KICKED, NICKNAME_IN_USE_ERROR,
    NICKNAME_IN_USE_HINT, USER_NOT_FOUND_ERROR, USER_NOT_FOUND_HINT,
};
use crate::directory::{
    distinct, includes, lemma_others_none, lemma_others_step, lemma_without, names_of, others,
    position, without, Directory, EntryView,
};
use crate::text::{argument, argument_of, chars_of, decimal, decimal_text, verb, verb_of};

verus! {

/// What a channel is: its name, its topic, who created it and how many
/// members it takes.
#[derive(Debug, PartialEq, Eq)]
pub struct ChannelInfo {
    pub name: String,
    pub topic: String,
    pub admin: String,
    pub capacity: usize,
}

/// `ChannelInfo` as values.
pub struct ChannelInfoView {
    pub name: Seq<char>,
    pub topic: Seq<char>,
    pub admin: Seq<char>,
    pub capacity: usize,
}

impl DeepView for ChannelInfo {
    type V = ChannelInfoView;

    open spec fn deep_view(&self) -> ChannelInfoView {
        ChannelInfoView {
            name: self.name@,
            topic: self.topic@,
            admin: self.admin@,
            capacity: self.capacity,
        }
    }
}

/// One thing that a channel wants sent.
#[derive(Debug, PartialEq, Eq)]
pub enum Outbound<C, M> {
    /// To the mailbox of the member called `nick`.
    Member { nick: String, action: Action<M> },
    /// To a mailbox that the channel does not keep: that of a client it
    /// refused or has just removed.
    Mailbox { sender: C, action: Action<M> },
    /// To the hub.
    Hub(Command<C>),
}

/// `Outbound` as values.
pub enum OutboundView<C, M> {
    Member { nick: Seq<char>, action: ActionView<M> },
    Mailbox { sender: C, action: ActionView<M> },
    Hub(CommandView<C>),
}

impl<C, M> DeepView for Outbound<C, M> {
    type V = OutboundView<C, M>;

    open spec fn deep_view(&self) -> OutboundView<C, M> {
        match self {
            Outbound::Member { nick, action } => OutboundView::Member {
                nick: nick@,
                action: action.deep_view(),
            },
            Outbound::Mailbox { sender, action } => OutboundView::Mailbox {
                sender: *sender,
                action: action.deep_view(),
            },
            Outbound::Hub(command) => OutboundView::Hub(command.deep_view()),
        }
    }
}

/// What a channel does with one item of its mailbox.
#[derive(Debug, PartialEq, Eq)]
pub enum Reaction<S, C, M> {
    /// Start a reader and a writer on the stream, bound to this channel.
    Spawn(S),
    /// Send these, in this order.
    Send(Vec<Outbound<C, M>>),
}

/// `Reaction` as values.
pub enum ReactionView<S, C, M> {
    Spawn(S),
    Send(Seq<OutboundView<C, M>>),
}

impl<S, C, M> DeepView for Reaction<S, C, M> {
    type V = ReactionView<S, C, M>;

    open spec fn deep_view(&self) -> ReactionView<S, C, M> {
        match self {
            Reaction::Spawn(stream) => ReactionView::Spawn(*stream),
            Reaction::Send(out) => ReactionView::Send(out.deep_view()),
        }
    }
}

/// What a line asks for.
#[derive(Clone, Copy, Debug, PartialEq, Eq, Structural)]
pub enum Request {
    /// The line is talk for the other members.
    Chat,
    /// Its first word is the word for joining a channel.
    Join,
    /// Its first word is the word for removing a member.
    Kick,
}

/// What `text` asks for: a command where its first word is a command word,
/// talk otherwise.
pub open spec fn request_of(settings: SettingsView, text: Seq<char>) -> Request {
    if verb(text) == settings.join {
        Request::Join
    } else if verb(text) == settings.kick {
        Request::Kick
    } else {
        Request::Chat
    }
}

/// A channel name begins with `#` or `&` and holds no space.
pub open spec fn valid_channel_name(name: Seq<char>) -> bool {
    &&& name.len() > 0
    &&& (name[0] == '#' || name[0] == '&')
    &&& forall|i: int| 0 <= i < name.len() ==> name[i] != ' '
}

/// The reply that refuses a request.
pub open spec fn failure<C, M>(nick: Seq<char>, error: Seq<char>, hint: Seq<char>) -> OutboundView<
    C,
    M,
> {
    OutboundView::Member {
        nick,
        action: ActionView::Send(ClientResultView::CommandFailure { error, hint }),
    }
}

/// The reply to a client that is not let in.
pub open spec fn refusal<C, M>(sender: C, error: Seq<char>, hint: Seq<char>) -> OutboundView<
    C,
    M,
> {
    OutboundView::Mailbox {
        sender,
        action: ActionView::Send(ClientResultView::CommandFailure { error, hint }),
    }
}

/// The JSON object of a snapshot, where `name`, `topic`, `admin` and `users`
/// are the texts of JSON values.
pub open spec fn framed_snapshot(
    name: Seq<char>,
    topic: Seq<char>,
    admin: Seq<char>,
    capacity: nat,
    users: Seq<char>,
) -> Seq<char> {
    "{\"name\":"@ + name + ",\"topic\":"@ + topic + ",\"admin\":"@ + admin
        + ",\"capacity\":"@ + decimal(capacity) + ",\"users\":"@ + users + "}"@
}

/// The JSON object of a snapshot, where `name`, `topic`, `admin` and `users`
/// are the texts of JSON values.
pub fn frame_snapshot(name: &str, topic: &str, admin: &str, capacity: usize, users: &str) -> (r:
    String)
    ensures
        r@ == framed_snapshot(name@, topic@, admin@, capacity as nat, users@),
{
    let mut r: String = "{\"name\":".to_owned();
    r.append(name);
    r.append(",\"topic\":");
    r.append(topic);
    r.append(",\"admin\":");
    r.append(admin);
    r.append(",\"capacity\":");
    r.append(decimal_text(capacity).as_str());
    r.append(",\"users\":");
    r.append(users);
    r.append("}");
    r
}

/// The snapshot of a channel that a new member receives: a JSON object of
/// the channel's name, topic, admin and capacity and of its members'
/// nicknames.
pub open spec fn snapshot(info: ChannelInfoView, users: Seq<Seq<char>>) -> Seq<char> {
    framed_snapshot(
        json_string(info.name),
        json_string(info.topic),
        json_string(info.admin),
        info.capacity as nat,
        json_array(users),
    )
}

/// A channel as values: the state that its steps read and change.
pub struct ChannelView<C, M> {
    pub info: ChannelInfoView,
    pub sender: M,
    pub irc_sender: M,
    pub clients: Seq<EntryView<C>>,
    pub settings: SettingsView,
}

impl<C, M> ChannelView<C, M> {
    /// No nickname is held twice, and the members fit the capacity.
    pub open spec fn wf(self) -> bool {
        &&& distinct(self.clients)
        &&& self.clients.len() <= self.info.capacity
    }

    /// The channel takes no further member.
    pub open spec fn full(self) -> bool {
        self.clients.len() >= self.info.capacity
    }

    /// The channel with other members.
    pub open spec fn with_clients(self, clients: Seq<EntryView<C>>) -> Self {
        ChannelView { clients, ..self }
    }

    /// The channel after a client asked to become a member: it is one now,
    /// unless the channel was full or had a member of that nickname.
    pub open spec fn attach(self, nick: Seq<char>, sender: C) -> Self {
        if self.full() || includes(self.clients, nick) {
            self
        } else {
            self.with_clients(self.clients.push(EntryView { name: nick, sender }))
        }
    }

    /// What the channel sends when a client asks to become a member: to a
    /// new member the channel's own mailbox `rebind` and then the snapshot,
    /// to a client that is not let in the reason.
    pub open spec fn attach_out(self, nick: Seq<char>, sender: C, rebind: M) -> Seq<
        OutboundView<C, M>,
    > {
        if self.full() {
            seq![refusal(sender, CHANNEL_FULL_ERROR@, CHANNEL_FULL_HINT@)]
        } else if includes(self.clients, nick) {
            seq![refusal(sender, NICKNAME_IN_USE_ERROR@, NICKNAME_IN_USE_HINT@)]
        } else {
            seq![
                OutboundView::Member { nick, action: ActionView::Join(rebind) },
                OutboundView::Member {
                    nick,
                    action: ActionView::Send(
                        ClientResultView::CommandSuccess {
                            data: snapshot(self.info, names_of(self.clients).push(nick)),
                        },
                    ),
                },
            ]
        }
    }

    /// The channel after `nick` sent a line that asks to join a channel:
    /// where the name is well formed, `nick` is no member any more.
    pub open spec fn join(self, nick: Seq<char>, line: Seq<char>) -> Self {
        if valid_channel_name(argument(line)) {
            self.with_clients(without(self.clients, nick))
        } else {
            self
        }
    }

    /// What the channel sends when the member `nick` asks to join a channel:
    /// the request with the member's mailbox to the hub, or, where the name
    /// is malformed, the refusal to the member. To a line from one who is no
    /// member there is no answer.
    pub open spec fn join_out(self, nick: Seq<char>, line: Seq<char>) -> Seq<OutboundView<C, M>> {
        if !includes(self.clients, nick) {
            seq![]
        } else if valid_channel_name(argument(line)) {
            seq![
                OutboundView::Hub(
                    CommandView::Join {
                        nick,
                        channel: argument(line),
                        sender: self.clients[position(self.clients, nick)].sender,
                    },
                ),
            ]
        } else {
            seq![
                failure(
                    nick,
                    self.settings.invalid_channel_name_error,
                    self.settings.invalid_channel_name_hint,
                ),
            ]
        }
    }

    /// The channel after a line that asks to remove the member it names.
    pub open spec fn kick(self, line: Seq<char>) -> Self {
        self.with_clients(without(self.clients, argument(line)))
    }

    /// What the channel sends when `nick` asks to remove the member that
    /// `line` names: the notice to the one removed, with its mailbox; or,
    /// where nobody is called so, the refusal to `nick` if it is a member.
    pub open spec fn kick_out(self, nick: Seq<char>, line: Seq<char>) -> Seq<OutboundView<C, M>> {
        let target = argument(line);
        if includes(self.clients, target) {
            seq![
                OutboundView::Mailbox {
                    sender: self.clients[position(self.clients, target)].sender,
                    action: ActionView::Send(ClientResultView::CommandSuccess { data: KICKED@ }),
                },
            ]
        } else if includes(self.clients, nick) {
            seq![failure(nick, USER_NOT_FOUND_ERROR@, USER_NOT_FOUND_HINT@)]
        } else {
            seq![]
        }
    }

    /// The channel after the command `line` from `nick`.
    pub open spec fn command(self, nick: Seq<char>, line: Seq<char>) -> Self {
        match request_of(self.settings, line) {
            Request::Join => self.join(nick, line),
            Request::Kick => self.kick(line),
            Request::Chat => self,
        }
    }

    /// What the channel sends for the command `line` from `nick`.
    pub open spec fn command_out(self, nick: Seq<char>, line: Seq<char>) -> Seq<
        OutboundView<C, M>,
    > {
        match request_of(self.settings, line) {
            Request::Join => self.join_out(nick, line),
            Request::Kick => self.kick_out(nick, line),
            Request::Chat => seq![],
        }
    }

    /// What the channel sends for talk from `nick`: the line, once to each
    /// member that is not called `nick`, in the members' order.
    pub open spec fn chat_out(self, nick: Seq<char>, text: Seq<char>, time: Timestamp) -> Seq<
        OutboundView<C, M>,
    > {
        chat_to(others(self.clients, nick), nick, text, time)
    }

    /// The channel after the line `text` from `nick`. Talk changes nothing.
    pub open spec fn message(self, nick: Seq<char>, text: Seq<char>) -> Self {
        self.command(nick, text)
    }

    /// What the channel sends for the line `text` from `nick`, read at `time`.
    pub open spec fn message_out(self, nick: Seq<char>, text: Seq<char>, time: Timestamp) -> Seq<
        OutboundView<C, M>,
    > {
        if request_of(self.settings, text) == Request::Chat {
            self.chat_out(nick, text, time)
        } else {
            self.command_out(nick, text)
        }
    }

    /// The channel after the connection of `nick` ended: `nick` is no member.
    pub open spec fn depart(self, nick: Seq<char>) -> Self {
        self.with_clients(without(self.clients, nick))
    }

    /// The channel after one item of its mailbox.
    pub open spec fn react<S>(self, event: EventView<S, C>) -> Self {
        match event {
            EventView::Client { nick, sender } => self.attach(nick, sender),
            EventView::Message { nick, msg } => self.message(nick, msg),
            EventView::Depart { nick } => self.depart(nick),
            EventView::Connection(_) => self,
            EventView::Command(_) => self,
        }
    }

    /// What the channel does for one item of its mailbox, where `rebind` is
    /// the handle of its own mailbox that it gives away and `time` the time
    /// it reads. A request for the hub that strays here is dropped.
    pub open spec fn react_out<S>(self, event: EventView<S, C>, rebind: M, time: Timestamp)
        -> ReactionView<S, C, M> {
        match event {
            EventView::Connection(stream) => ReactionView::Spawn(stream),
            EventView::Client { nick, sender } => ReactionView::Send(
                self.attach_out(nick, sender, rebind),
            ),
            EventView::Message { nick, msg } => ReactionView::Send(
                self.message_out(nick, msg, time),
            ),
            EventView::Depart { nick } => ReactionView::Send(seq![]),
            EventView::Command(_) => ReactionView::Send(seq![]),
        }
    }
}

/// The line `text` of `nick`, once for each of `to`.
pub open spec fn chat_to<C, M>(
    to: Seq<EntryView<C>>,
    nick: Seq<char>,
    text: Seq<char>,
    time: Timestamp,
) -> Seq<OutboundView<C, M>> {
    Seq::new(
        to.len(),
        |i: int|
            OutboundView::Member {
                nick: to[i].name,
                action: ActionView::Send(
                    ClientResultView::Message { time, nick, message: text },
                ),
            },
    )
}

/// Whether `name` is a well-formed channel name.
pub fn is_channel_name(name: &str) -> (r: bool)
    ensures
        r == valid_channel_name(name@),
{
    let v = chars_of(name);
    if v.len() == 0 {
        return false;
    }
    if v[0] != '#' && v[0] != '&' {
        return false;
    }
    let mut i: usize = 0;
    while i < v.len()
        invariant
            i <= v.len(),
            v@ == name@,
            forall|k: int| 0 <= k < i ==> v@[k] != ' ',
        decreases v.len() - i,
    {
        if v[i] == ' ' {
            assert(name@[i as int] == ' ');
            return false;
        }
        i += 1;
    }
    true
}

/// The state of one channel actor.
#[derive(Debug)]
pub struct Channel<C, M> {
    info: ChannelInfo,
    sender: M,
    irc_sender: M,
    clients: Directory<C>,
    settings: Settings,
}

impl<C, M> View for Channel<C, M> {
    type V = ChannelView<C, M>;

    closed spec fn view(&self) -> ChannelView<C, M> {
        ChannelView {
            info: self.info.deep_view(),
            sender: self.sender,
            irc_sender: self.irc_sender,
            clients: self.clients@,
            settings: self.settings.deep_view(),
        }
    }
}

impl<C, M: Clone> Channel<C, M> {
    /// What every channel keeps.
    pub open spec fn wf(&self) -> bool {
        self@.wf()
    }

    /// An empty channel called `name` that `admin` created. `sender` is the
    /// handle of the channel's own mailbox, `irc_sender` that of the hub's.
    pub fn new(
        name: String,
        admin: String,
        capacity: usize,
        irc_sender: M,
        sender: M,
        settings: Settings,
    ) -> (r: Channel<C, M>)
        ensures
            r.wf(),
            r@ == (ChannelView {
                info: ChannelInfoView {
                    name: name@,
                    topic: settings.default_topic@,
                    admin: admin@,
                    capacity,
                },
                sender,
                irc_sender,
                clients: Seq::<EntryView<C>>::empty(),
                settings: settings.deep_view(),
            }),
    {
        let info = ChannelInfo { name, capacity, admin, topic: settings.default_topic.clone() };
        Channel { info, clients: Directory::new(), irc_sender, sender, settings }
    }

    /// The channel's name, topic, admin and capacity.
    pub fn info(&self) -> (r: &ChannelInfo)
        ensures
            r.deep_view() == self@.info,
    {
        &self.info
    }

    /// The handle of the channel's own mailbox.
    pub fn sender(&self) -> (r: &M)
        ensures
            *r == self@.sender,
    {
        &self.sender
    }

    /// The handle of the hub's mailbox.
    pub fn irc_sender(&self) -> (r: &M)
        ensures
            *r == self@.irc_sender,
    {
        &self.irc_sender
    }

    /// The mailbox of the member called `nick`.
    pub fn mailbox(&self, nick: &String) -> (r: Option<&C>)
        ensures
            r is Some <==> includes(self@.clients, nick@),
            r matches Some(sender) ==> *sender == self@.clients[position(
                self@.clients,
                nick@,
            )].sender,
    {
        self.clients.get(nick)
    }

    /// The members' nicknames, in the order in which they came.
    pub fn nicks(&self) -> (r: Vec<String>)
        ensures
            r.deep_view() == names_of(self@.clients),
    {
        self.clients.names()
    }

    /// Gives the channel another topic.
    pub fn set_topic(&mut self, topic: String)
        ensures
            final(self)@ == (ChannelView {
                info: ChannelInfoView { topic: topic@, ..old(self)@.info },
                ..old(self)@
            }),
    {
        self.info.topic = topic;
    }

    /// The snapshot of the channel as it stands.
    pub fn serialize(&self) -> (r: String)
        ensures
            r@ == snapshot(self@.info, names_of(self@.clients)),
    {
        let users = array(&self.clients.names());
        let name = quote(self.info.name.as_str());
        let topic = quote(self.info.topic.as_str());
        let admin = quote(self.info.admin.as_str());
        frame_snapshot(
            name.as_str(),
            topic.as_str(),
            admin.as_str(),
            self.info.capacity,
            users.as_str(),
        )
    }

    /// A client asks to become a member under `nick`. It is refused where
    /// the channel is full or has a member of that nickname; else it is told
    /// to send its lines here, receives the snapshot, and is a member.
    pub fn client(&mut self, nick: String, sender: C) -> (out: Vec<Outbound<C, M>>)
        requires
            old(self).wf(),
        ensures
            final(self).wf(),
            final(self)@ == old(self)@.attach(nick@, sender),
            exists|rebind: M| #[trigger]
                cloned(old(self)@.sender, rebind) && out.deep_view() == old(self)@.attach_out(
                    nick@,
                    sender,
                    rebind,
                ),
    {
        if self.clients.len() >= self.info.capacity {
            let out = vec![
                Outbound::Mailbox {
                    sender,
                    action: Action::Send(
                        ClientResult::CommandFailure {
                            error: CHANNEL_FULL_ERROR.to_owned(),
                            hint: CHANNEL_FULL_HINT.to_owned(),
                        },
                    ),
                },
            ];
            proof {
                assert(cloned(self@.sender, self@.sender));
                assert(out.deep_view() =~= self@.attach_out(nick@, sender, self@.sender));
            }
            return out;
        }
        if self.clients.contains(&nick) {
            let out = vec![
                Outbound::Mailbox {
                    sender,
                    action: Action::Send(
                        ClientResult::CommandFailure {
                            error: NICKNAME_IN_USE_ERROR.to_owned(),
                            hint: NICKNAME_IN_USE_HINT.to_owned(),
                        },
                    ),
                },
            ];
            proof {
                assert(cloned(self@.sender, self@.sender));
                assert(out.deep_view() =~= self@.attach_out(nick@, sender, self@.sender));
            }
            return out;
        }
        let rebind = self.sender.clone();
        assert(cloned(self@.sender, rebind));
        let to = nick.clone();
        let again = nick.clone();
        self.clients.insert(nick, sender);
        let data = self.serialize();
        let out = vec![
            Outbound::Member { nick: to, action: Action::Join(rebind) },
            Outbound::Member {
                nick: again,
                action: Action::Send(ClientResult::CommandSuccess { data }),
            },
        ];
        proof {
            assert(names_of(self@.clients) =~= names_of(old(self)@.clients).push(nick@));
            assert(out.deep_view() =~= old(self)@.attach_out(nick@, sender, rebind));
        }
        out
    }

    /// What the line `msg` asks for.
    pub fn request(&self, msg: &String) -> (r: Request)
        ensures
            r == request_of(self@.settings, msg@),
    {
        let word = verb_of(msg.as_str());
        if word == self.settings.join {
            Request::Join
        } else if word == self.settings.kick {
            Request::Kick
        } else {
            Request::Chat
        }
    }

    /// Whether the line `msg` is a command: its first word is a command word.
    pub fn is_command(&self, msg: &String) -> (r: bool)
        ensures
            r == (request_of(self@.settings, msg@) != Request::Chat),
    {
        match self.request(msg) {
            Request::Chat => false,
            _ => true,
        }
    }

    /// The channel name that the line `name` asks for: what follows its
    /// first word, if that is a well-formed name.
    pub fn parse_channel_name(name: String) -> (r: Result<String, ()>)
        ensures
            r is Ok <==> valid_channel_name(argument(name@)),
            r matches Ok(channel) ==> channel@ == argument(name@),
    {
        let channel = argument_of(name.as_str());
        if is_channel_name(channel.as_str()) {
            Ok(channel)
        } else {
            Err(())
        }
    }

    /// The line `msg` of `nick` asks to join a channel. Where the name is
    /// well formed, `nick` leaves this channel and the hub gets the request
    /// with its mailbox; else `nick` stays and is told why.
    pub fn join(&mut self, nick: String, msg: String) -> (out: Vec<Outbound<C, M>>)
        requires
            old(self).wf(),
        ensures
            final(self).wf(),
            final(self)@ == old(self)@.join(nick@, msg@),
            out.deep_view() == old(self)@.join_out(nick@, msg@),
    {
        proof {
            lemma_without(self@.clients, nick@);
        }
        match Self::parse_channel_name(msg) {
            Ok(channel) => {
                match self.clients.remove(&nick) {
                    Some(client) => {
                        let out = vec![
                            Outbound::Hub(Command::Join { nick, channel, sender: client }),
                        ];
                        assert(out.deep_view() =~= old(self)@.join_out(nick@, msg@));
                        out
                    },
                    None => {
                        let out: Vec<Outbound<C, M>> = Vec::new();
                        assert(out.deep_view() =~= old(self)@.join_out(nick@, msg@));
                        out
                    },
                }
            },
            Err(_) => {
                if self.clients.contains(&nick) {
                    let out = vec![
                        Outbound::Member {
                            nick,
                            action: Action::Send(
                                ClientResult::CommandFailure {
                                    error: self.settings.invalid_channel_name_error.clone(),
                                    hint: self.settings.invalid_channel_name_hint.clone(),
                                },
                            ),
                        },
                    ];
                    assert(out.deep_view() =~= old(self)@.join_out(nick@, msg@));
                    out
                } else {
                    let out: Vec<Outbound<C, M>> = Vec::new();
                    assert(out.deep_view() =~= old(self)@.join_out(nick@, msg@));
                    out
                }
            },
        }
    }

    /// The line `msg` of `nick` asks to remove the member it names. That
    /// member is removed and sent the notice; where nobody is called so,
    /// `nick` is told.
    pub fn kick(&mut self, nick: String, msg: String) -> (out: Vec<Outbound<C, M>>)
        requires
            old(self).wf(),
        ensures
            final(self).wf(),
            final(self)@ == old(self)@.kick(msg@),
            out.deep_view() == old(self)@.kick_out(nick@, msg@),
    {
        let target = argument_of(msg.as_str());
        proof {
            lemma_without(self@.clients, target@);
        }
        match self.clients.remove(&target) {
            Some(client) => {
                let out = vec![
                    Outbound::Mailbox {
                        sender: client,
                        action: Action::Send(
                            ClientResult::CommandSuccess { data: KICKED.to_owned() },
                        ),
                    },
                ];
                assert(out.deep_view() =~= old(self)@.kick_out(nick@, msg@));
                out
            },
            None => {
                if self.clients.contains(&nick) {
                    let out = vec![
                        Outbound::Member {
                            nick,
                            action: Action::Send(
                                ClientResult::CommandFailure {
                                    error: USER_NOT_FOUND_ERROR.to_owned(),
                                    hint: USER_NOT_FOUND_HINT.to_owned(),
                                },
                            ),
                        },
                    ];
                    assert(out.deep_view() =~= old(self)@.kick_out(nick@, msg@));
                    out
                } else {
                    let out: Vec<Outbound<C, M>> = Vec::new();
                    assert(out.deep_view() =~= old(self)@.kick_out(nick@, msg@));
                    out
                }
            },
        }
    }

    /// The connection of `nick` ended: `nick` is taken out, without notice.
    pub fn depart(&mut self, nick: String)
        requires
            old(self).wf(),
        ensures
            final(self).wf(),
            final(self)@ == old(self)@.depart(nick@),
    {
        proof {
            lemma_without(self@.clients, nick@);
        }
        self.clients.remove(&nick);
    }

    /// Carries out the command `cmd` of `nick`. A line that is no command
    /// changes nothing and sends nothing.
    pub fn run_command(&mut self, nick: String, cmd: String) -> (out: Vec<Outbound<C, M>>)
        requires
            old(self).wf(),
        ensures
            final(self).wf(),
            final(self)@ == old(self)@.command(nick@, cmd@),
            out.deep_view() == old(self)@.command_out(nick@, cmd@),
    {
        match self.request(&cmd) {
            Request::Join => self.join(nick, cmd),
            Request::Kick => self.kick(nick, cmd),
            Request::Chat => {
                let out: Vec<Outbound<C, M>> = Vec::new();
                assert(out.deep_view() =~= old(self)@.command_out(nick@, cmd@));
                out
            },
        }
    }

    /// The talk `message` of `nick`, read at `time`, for every member that
    /// is not called `nick`.
    pub fn broadcast(&self, nick: String, message: String, time: Timestamp) -> (out: Vec<
        Outbound<C, M>,
    >)
        ensures
            out.deep_view() == self@.chat_out(nick@, message@, time),
    {
        let result = ClientResult::Message { time, nick: nick.clone(), message };
        let names = self.clients.names();
        let ghost ms = self@.clients;
        let mut out: Vec<Outbound<C, M>> = Vec::new();
        let mut i: usize = 0;
        proof {
            lemma_others_none(ms, nick@);
            assert(names.deep_view().len() == names.len());
            assert(out.deep_view() =~= chat_to(others(ms.take(0), nick@), nick@, message@, time));
        }
        while i < names.len()
            invariant
                i <= names.len(),
                names.len() == ms.len(),
                names.deep_view() == names_of(ms),
                result.deep_view() == (ClientResultView::Message {
                    time,
                    nick: nick@,
                    message: message@,
                }),
                out.deep_view() == chat_to::<C, M>(
                    others(ms.take(i as int), nick@),
                    nick@,
                    message@,
                    time,
                ),
            decreases names.len() - i,
        {
            proof {
                lemma_others_step(ms, nick@, i as int);
                assert(names.deep_view()[i as int] == ms[i as int].name);
                assert(names.deep_view()[i as int] == names[i as int]@);
            }
            let ghost before = out.deep_view();
            if names[i] != nick {
                let to = names[i].clone();
                let copy = result.clone();
                out.push(Outbound::Member { nick: to, action: Action::Send(copy) });
                let ghost entry = OutboundView::<C, M>::Member {
                    nick: ms[i as int].name,
                    action: ActionView::Send(result.deep_view()),
                };
                assert(out.deep_view() =~= before.push(entry));
                assert(before.push(entry) =~= chat_to::<C, M>(
                    others(ms.take(i + 1), nick@),
                    nick@,
                    message@,
                    time,
                ));
            }
            i += 1;
        }
        proof {
            assert(ms.take(i as int) =~= ms);
        }
        out
    }

    /// The line `message` of `nick`, read at `time`: a command is carried
    /// out, talk goes to the other members.
    pub fn send_msg_at(&mut self, nick: String, message: String, time: Timestamp) -> (out: Vec<
        Outbound<C, M>,
    >)
        requires
            old(self).wf(),
        ensures
            final(self).wf(),
            final(self)@ == old(self)@.message(nick@, message@),
            out.deep_view() == old(self)@.message_out(nick@, message@, time),
    {
        if self.is_command(&message) {
            self.run_command(nick, message)
        } else {
            self.broadcast(nick, message, time)
        }
    }

    /// The line `message` of `nick`, read now.
    pub fn send_msg(&mut self, nick: String, message: String) -> (out: Vec<Outbound<C, M>>)
        requires
            old(self).wf(),
        ensures
            final(self).wf(),
            final(self)@ == old(self)@.message(nick@, message@),
            exists|time: Timestamp|
                out.deep_view() == #[trigger] old(self)@.message_out(nick@, message@, time),
    {
        let time = now();
        self.send_msg_at(nick, message, time)
    }

    /// One step of the actor: what the channel does with `event`, read at
    /// `time`.
    pub fn broker_at<S>(&mut self, event: Event<S, C>, time: Timestamp) -> (r: Reaction<S, C, M>)
        requires
            old(self).wf(),
        ensures
            final(self).wf(),
            final(self)@ == old(self)@.react(event.deep_view()),
            exists|rebind: M| #[trigger]
                cloned(old(self)@.sender, rebind) && r.deep_view() == old(self)@.react_out(
                    event.deep_view(),
                    rebind,
                    time,
                ),
    {
        assert(cloned(self@.sender, self@.sender));
        match event {
            Event::Connection(stream) => Reaction::Spawn(stream),
            Event::Message { nick, msg } => Reaction::Send(self.send_msg_at(nick, msg, time)),
            Event::Client { nick, sender } => Reaction::Send(self.client(nick, sender)),
            Event::Depart { nick } => {
                self.depart(nick);
                let out: Vec<Outbound<C, M>> = Vec::new();
                assert(out.deep_view() =~= Seq::empty());
                Reaction::Send(out)
            },
            Event::Command(_) => {
                let out: Vec<Outbound<C, M>> = Vec::new();
                assert(out.deep_view() =~= Seq::empty());
                Reaction::Send(out)
            },
        }
    }

    /// One step of the actor: what the channel does with `event`.
    pub fn broker<S>(&mut self, event: Event<S, C>) -> (r: Reaction<S, C, M>)
        requires
            old(self).wf(),
        ensures
            final(self).wf(),
            final(self)@ == old(self)@.react(event.deep_view()),
            exists|rebind: M, time: Timestamp| #[trigger]
                cloned(old(self)@.sender, rebind) && r.deep_view() == #[trigger] old(
                    self,
                )@.react_out(event.deep_view(), rebind, time),
    {
        let time = now();
        self.broker_at(event, time)
    }
}

} // verus!
