//! The vocabulary of the bus: what the actors' mailboxes carry, what a
//! connection is told to do, and the settings that every actor shares.
//!
//! Mailbox handles are type parameters: `S` is a stream that was accepted, `C`
//! the handle of a client's mailbox and `M` the handle of a channel's or the
//! hub's mailbox. The broker stores and passes them and never looks inside.

use vstd::prelude::*;
use crate::clock::Timestamp;

verus! {

/// Name of the channel that every new connection is attached to.
pub const HALL: &'static str = "HALL";

/// Admin of the lobby.
pub const HALL_ADMIN: &'static str = "SERVER";

/// Topic of a channel that was given none.
pub const DEFAULT_TOPIC: &'static str = "Default Topic of the Channel.";

/// Most members that a channel holds.
pub const MAX_CLIENTS: usize = 5;

/// First word of the line that removes a member.
pub const KICK: &'static str = "KICK";

/// First word of the line that moves its sender to another channel.
pub const JOIN: &'static str = "JOIN";

/// The command words.
pub const COMMANDS: [&'static str; 2] = [JOIN, KICK];

/// Error code of the reply to a `JOIN` with a malformed channel name.
pub const INVALID_CHANNEL_NAME_ERROR: &'static str = "INVALID_CHANNEL_NAME_ERROR";

/// Hint of the reply to a `JOIN` with a malformed channel name.
pub const INVALID_CHANNEL_NAME_HINT: &'static str =
    "Channels names are strings (beginning with a '&' or '#' character) of
length up to 200 characters.  Apart from the the requirement that the
first character being either '&' or '#'; the only restriction on a
channel name is that it may not contain any spaces (' '), a control G
(^G or ASCII 7), or a comma (',' which is used as a list item
separator by the protocol).";

/// Notice that a member receives when it is kicked.
pub const KICKED: &'static str = "KICKED!";

/// Error code of the reply to a `KICK` whose target is no member.
pub const USER_NOT_FOUND_ERROR: &'static str = "USER_NOT_FOUND_ERROR";

/// Hint of the reply to a `KICK` whose target is no member.
pub const USER_NOT_FOUND_HINT: &'static str = "USER DOES NOT EXIST!";

/// Error code of the reply to an attach that finds the channel full.
pub const CHANNEL_FULL_ERROR: &'static str = "CHANNEL_FULL_ERROR";

/// Hint of the reply to an attach that finds the channel full.
pub const CHANNEL_FULL_HINT: &'static str = "The channel has no room for another member.";

/// Error code of the reply to an attach under a nickname that is taken.
pub const NICKNAME_IN_USE_ERROR: &'static str = "NICKNAME_IN_USE_ERROR";

/// Hint of the reply to an attach under a nickname that is taken.
pub const NICKNAME_IN_USE_HINT: &'static str = "The channel has a member of that nickname.";

/// What an operator may set: the lobby, the limits and the command words.
#[derive(Debug, PartialEq, Eq)]
pub struct Settings {
    pub hall: String,
    pub hall_admin: String,
    pub default_topic: String,
    pub max_clients: usize,
    pub join: String,
    pub kick: String,
    pub invalid_channel_name_error: String,
    pub invalid_channel_name_hint: String,
}

/// `Settings` as values.
pub struct SettingsView {
    pub hall: Seq<char>,
    pub hall_admin: Seq<char>,
    pub default_topic: Seq<char>,
    pub max_clients: usize,
    pub join: Seq<char>,
    pub kick: Seq<char>,
    pub invalid_channel_name_error: Seq<char>,
    pub invalid_channel_name_hint: Seq<char>,
}

impl DeepView for Settings {
    type V = SettingsView;

    open spec fn deep_view(&self) -> SettingsView {
        SettingsView {
            hall: self.hall@,
            hall_admin: self.hall_admin@,
            default_topic: self.default_topic@,
            max_clients: self.max_clients,
            join: self.join@,
            kick: self.kick@,
            invalid_channel_name_error: self.invalid_channel_name_error@,
            invalid_channel_name_hint: self.invalid_channel_name_hint@,
        }
    }
}

/// The settings that hold where none are given.
pub open spec fn default_settings() -> SettingsView {
    SettingsView {
        hall: HALL@,
        hall_admin: HALL_ADMIN@,
        default_topic: DEFAULT_TOPIC@,
        max_clients: MAX_CLIENTS,
        join: JOIN@,
        kick: KICK@,
        invalid_channel_name_error: INVALID_CHANNEL_NAME_ERROR@,
        invalid_channel_name_hint: INVALID_CHANNEL_NAME_HINT@,
    }
}

impl Default for Settings {
    fn default() -> (r: Settings)
        ensures
            r.deep_view() == default_settings(),
    {
        Settings {
            hall: HALL.to_owned(),
            hall_admin: HALL_ADMIN.to_owned(),
            default_topic: DEFAULT_TOPIC.to_owned(),
            max_clients: MAX_CLIENTS,
            join: JOIN.to_owned(),
            kick: KICK.to_owned(),
            invalid_channel_name_error: INVALID_CHANNEL_NAME_ERROR.to_owned(),
            invalid_channel_name_hint: INVALID_CHANNEL_NAME_HINT.to_owned(),
        }
    }
}

impl Clone for Settings {
    fn clone(&self) -> (r: Settings)
        ensures
            r.deep_view() == self.deep_view(),
    {
        Settings {
            hall: self.hall.clone(),
            hall_admin: self.hall_admin.clone(),
            default_topic: self.default_topic.clone(),
            max_clients: self.max_clients,
            join: self.join.clone(),
            kick: self.kick.clone(),
            invalid_channel_name_error: self.invalid_channel_name_error.clone(),
            invalid_channel_name_hint: self.invalid_channel_name_hint.clone(),
        }
    }
}

/// What a connection writes to its peer.
#[derive(Debug, PartialEq, Eq)]
pub enum ClientResult {
    /// A line that another member of the channel sent.
    Message { time: Timestamp, nick: String, message: String },
    /// The answer to a request that was carried out.
    CommandSuccess { data: String },
    /// The answer to a request that was refused.
    CommandFailure { error: String, hint: String },
}

/// `ClientResult` as values.
pub enum ClientResultView {
    Message { time: Timestamp, nick: Seq<char>, message: Seq<char> },
    CommandSuccess { data: Seq<char> },
    CommandFailure { error: Seq<char>, hint: Seq<char> },
}

impl DeepView for ClientResult {
    type V = ClientResultView;

    open spec fn deep_view(&self) -> ClientResultView {
        match self {
            ClientResult::Message { time, nick, message } => ClientResultView::Message {
                time: *time,
                nick: nick@,
                message: message@,
            },
            ClientResult::CommandSuccess { data } => ClientResultView::CommandSuccess {
                data: data@,
            },
            ClientResult::CommandFailure { error, hint } => ClientResultView::CommandFailure {
                error: error@,
                hint: hint@,
            },
        }
    }
}

impl Clone for ClientResult {
    fn clone(&self) -> (r: ClientResult)
        ensures
            r.deep_view() == self.deep_view(),
    {
        match self {
            ClientResult::Message { time, nick, message } => ClientResult::Message {
                time: *time,
                nick: nick.clone(),
                message: message.clone(),
            },
            ClientResult::CommandSuccess { data } => ClientResult::CommandSuccess {
                data: data.clone(),
            },
            ClientResult::CommandFailure { error, hint } => ClientResult::CommandFailure {
                error: error.clone(),
                hint: hint.clone(),
            },
        }
    }
}

/// What a connection's writer is asked to do.
#[derive(Debug, PartialEq, Eq)]
pub enum Action<M> {
    /// Write the result to the stream.
    Send(ClientResult),
    /// Forward the lines that are read from now on to this channel.
    Join(M),
}

/// `Action` as values.
pub enum ActionView<M> {
    Send(ClientResultView),
    Join(M),
}

impl<M> DeepView for Action<M> {
    type V = ActionView<M>;

    open spec fn deep_view(&self) -> ActionView<M> {
        match self {
            Action::Send(result) => ActionView::Send(result.deep_view()),
            Action::Join(channel) => ActionView::Join(*channel),
        }
    }
}

/// A request that a channel hands to the hub.
#[derive(Debug, PartialEq, Eq)]
pub enum Command<C> {
    /// Attach the client `nick`, whose mailbox is `sender`, to `channel`.
    Join { nick: String, channel: String, sender: C },
}

/// `Command` as values.
pub enum CommandView<C> {
    Join { nick: Seq<char>, channel: Seq<char>, sender: C },
}

impl<C> DeepView for Command<C> {
    type V = CommandView<C>;

    open spec fn deep_view(&self) -> CommandView<C> {
        match self {
            Command::Join { nick, channel, sender } => CommandView::Join {
                nick: nick@,
                channel: channel@,
                sender: *sender,
            },
        }
    }
}

/// What an actor's mailbox carries.
#[derive(Debug, PartialEq, Eq)]
pub enum Event<S, C> {
    /// A request for the hub.
    Command(Command<C>),
    /// A stream that was accepted and has no nickname yet.
    Connection(S),
    /// A client that asks to become a member.
    Client { nick: String, sender: C },
    /// A line that a client sent.
    Message { nick: String, msg: String },
    /// A client whose connection ended.
    Depart { nick: String },
}

/// `Event` as values.
pub enum EventView<S, C> {
    Command(CommandView<C>),
    Connection(S),
    Client { nick: Seq<char>, sender: C },
    Message { nick: Seq<char>, msg: Seq<char> },
    Depart { nick: Seq<char> },
}

impl<S, C> DeepView for Event<S, C> {
    type V = EventView<S, C>;

    open spec fn deep_view(&self) -> EventView<S, C> {
        match self {
            Event::Command(command) => EventView::Command(command.deep_view()),
            Event::Connection(stream) => EventView::Connection(*stream),
            Event::Client { nick, sender } => EventView::Client { nick: nick@, sender: *sender },
            Event::Message { nick, msg } => EventView::Message { nick: nick@, msg: msg@ },
            Event::Depart { nick } => EventView::Depart { nick: nick@ },
        }
    }
}

} // verus!
