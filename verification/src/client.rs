//! The pair of tasks on one connection: a reader that turns lines into
//! events for the channel that the connection is bound to, and a writer that
//! carries out what the channels ask of the connection.

use vstd::prelude::*;
use crate::protocol::{Action, ActionView, ClientResult, ClientResultView, Event, EventView};
use crate::text::{trim, trimmed};

verus! {

/// What the two tasks share as values.
pub struct ClientView<M> {
    pub nick: Seq<char>,
    pub channel: M,
}

impl<M> ClientView<M> {
    /// What the reader puts into the channel's mailbox for `line`: the
    /// trimmed line under the connection's nickname, and nothing for a line
    /// that is empty then.
    pub open spec fn read<S, C>(self, line: Seq<char>) -> Option<EventView<S, C>> {
        if trimmed(line).len() == 0 {
            None
        } else {
            Some(EventView::Message { nick: self.nick, msg: trimmed(line) })
        }
    }

    /// The connection after the writer carried out `action`: it is bound to
    /// the channel that it was told to join.
    pub open spec fn write(self, action: ActionView<M>) -> Self {
        match action {
            ActionView::Send(_) => self,
            ActionView::Join(channel) => ClientView { channel, ..self },
        }
    }

    /// What the writer writes to the stream for `action`.
    pub open spec fn write_out(self, action: ActionView<M>) -> Option<ClientResultView> {
        match action {
            ActionView::Send(result) => Some(result),
            ActionView::Join(_) => None,
        }
    }
}

/// What the reader and the writer of one connection share: the nickname, and
/// the channel that the reader's lines go to.
#[derive(Debug)]
pub struct Client<M> {
    nick: String,
    channel: M,
}

impl<M> View for Client<M> {
    type V = ClientView<M>;

    closed spec fn view(&self) -> ClientView<M> {
        ClientView { nick: self.nick@, channel: self.channel }
    }
}

impl<M> Client<M> {
    /// A connection whose first line was `line`, bound to the channel that
    /// took it in. The first line is the nickname as it stands; a stream
    /// that ended before it gives the empty nickname.
    pub fn new(line: Option<String>, channel_sender: M) -> (r: Client<M>)
        ensures
            r@.nick == (match line {
                Some(first) => first@,
                None => Seq::<char>::empty(),
            }),
            r@.channel == channel_sender,
    {
        let nick = match line {
            Some(first) => first,
            None => String::new(),
        };
        Client { nick, channel: channel_sender }
    }

    /// The nickname.
    pub fn nick(&self) -> (r: &String)
        ensures
            r@ == self@.nick,
    {
        &self.nick
    }

    /// The channel that the connection is bound to.
    pub fn channel(&self) -> (r: &M)
        ensures
            *r == self@.channel,
    {
        &self.channel
    }

    /// What the connection puts into its channel's mailbox once it has its
    /// nickname: the request to become a member, with the handle `sender` of
    /// the writer's mailbox.
    pub fn attach<S, C>(&self, sender: C) -> (r: Event<S, C>)
        ensures
            r.deep_view() == (EventView::<S, C>::Client { nick: self@.nick, sender }),
    {
        Event::Client { nick: self.nick.clone(), sender }
    }

    /// One step of the reader: what goes to the channel for the line `line`.
    pub fn reader<S, C>(&self, line: &str) -> (r: Option<Event<S, C>>)
        ensures
            r.deep_view() == self@.read::<S, C>(line@),
    {
        let msg = trim(line);
        if msg.as_str().unicode_len() == 0 {
            None
        } else {
            Some(Event::Message { nick: self.nick.clone(), msg })
        }
    }

    /// What the reader puts into the channel's mailbox when the stream has
    /// ended or failed.
    pub fn depart<S, C>(&self) -> (r: Event<S, C>)
        ensures
            r.deep_view() == (EventView::<S, C>::Depart { nick: self@.nick }),
    {
        Event::Depart { nick: self.nick.clone() }
    }

    /// One step of the writer: a result is handed out to be written, and a
    /// channel to join is where the reader's lines go from now on.
    pub fn writer(&mut self, action: Action<M>) -> (r: Option<ClientResult>)
        ensures
            final(self)@ == old(self)@.write(action.deep_view()),
            r.deep_view() == old(self)@.write_out(action.deep_view()),
    {
        match action {
            Action::Send(result) => Some(result),
            Action::Join(channel) => {
                self.channel = channel;
                None
            },
        }
    }
}

} // verus!
